//! Inbound (receiver) side of a resource transfer.

use vstd::prelude::*;

use crate::arith;
use crate::bytes;
use crate::bytes::be_value;
use crate::compress;
use crate::compress::{bounded_output, bz2_decompressed};
use crate::error::RnsError;
use crate::hash::{sha256_digest, AddressHash};
use crate::link::{raw_packet, sealed_len, sealed_packet, Link, LinkId, LinkPacketView, Rate};
use crate::msgpack;
use crate::packet::{PacketContext, PacketType, HEADER_LEN, PACKET_MDU};
use crate::resource::advertisement::{
    address_bytes, unpacked, AdvertisementView, ResourceAdvertisement, FLAG_COMPRESSED,
    FLAG_ENCRYPTED, FLAG_HAS_METADATA, FLAG_IS_RESPONSE, FLAG_SPLIT, HASHMAP_MAX_LEN,
};
use crate::resource::outbound::{
    at_most_one, flag_bits, make_flags, part_size, part_size_of, segment_progress,
    weighted_fraction,
};
use crate::resource::segment::leading_metadata;
use crate::resource::{
    map_hash, part_count, part_map_hash, parts_of, same_map_hash, Progress, ResourceStatus,
    ResourceTx, FAST_RATE_THRESHOLD, HASHMAP_IS_EXHAUSTED, HASHMAP_IS_NOT_EXHAUSTED,
    HMU_WAIT_FACTOR_DOUBLED, MAX_EFFICIENT_SIZE, MAX_RETRIES, PART_TIMEOUT_FACTOR,
    PART_TIMEOUT_FACTOR_AFTER_RTT, PER_RETRY_DELAY, RATE_FAST, RATE_VERY_SLOW, RETRY_GRACE_TIME,
    SECOND, VERY_SLOW_RATE_THRESHOLD, WINDOW, WINDOW_FLEXIBILITY, WINDOW_MAX_FAST,
    WINDOW_MAX_SLOW, WINDOW_MAX_VERY_SLOW, WINDOW_MIN,
};

verus! {

/// How many entries are present.
pub open spec fn count_present<T>(entries: Seq<Option<T>>) -> nat
    decreases entries.len(),
{
    if entries.len() == 0 {
        0
    } else {
        count_present(entries.drop_last()) + (if entries.last() is Some {
            1nat
        } else {
            0nat
        })
    }
}

/// No more entries are present than there are, and all are exactly when the numbers are equal.
pub proof fn count_present_bound<T>(entries: Seq<Option<T>>)
    ensures
        count_present(entries) <= entries.len(),
        count_present(entries) == entries.len() ==> forall|i: int|
            0 <= i < entries.len() ==> (#[trigger] entries[i]) is Some,
        (forall|i: int| 0 <= i < entries.len() ==> (#[trigger] entries[i]) is Some)
            ==> count_present(entries) == entries.len(),
        (forall|i: int| 0 <= i < entries.len() ==> (#[trigger] entries[i]) is None)
            ==> count_present(entries) == 0,
    decreases entries.len(),
{
    if entries.len() > 0 {
        let head = entries.drop_last();
        count_present_bound(head);
        if count_present(entries) == entries.len() {
            assert forall|i: int| 0 <= i < entries.len() implies (#[trigger] entries[i])
                is Some by {
                if i < entries.len() - 1 {
                    assert(head[i] is Some);
                }
            }
        }
        if forall|i: int| 0 <= i < entries.len() ==> (#[trigger] entries[i]) is Some {
            assert forall|i: int| 0 <= i < head.len() implies (#[trigger] head[i]) is Some by {
                assert(entries[i] is Some);
            }
        }
        if forall|i: int| 0 <= i < entries.len() ==> (#[trigger] entries[i]) is None {
            assert forall|i: int| 0 <= i < head.len() implies (#[trigger] head[i]) is None by {
                assert(entries[i] is None);
            }
        }
    }
}

/// Filling an empty entry adds one; replacing an entry adds none.
pub proof fn count_present_update<T>(entries: Seq<Option<T>>, i: int, value: T)
    requires
        0 <= i < entries.len(),
    ensures
        count_present(entries.update(i, Some(value))) == count_present(entries) + (if entries[i]
            is Some {
            0nat
        } else {
            1nat
        }),
    decreases entries.len(),
{
    let after = entries.update(i, Some(value));
    if i == entries.len() - 1 {
        assert(after.drop_last() =~= entries.drop_last());
    } else {
        count_present_update(entries.drop_last(), i, value);
        assert(after.drop_last() =~= entries.drop_last().update(i, Some(value)));
    }
}

/// An accepted resource advertisement, transfer in progress.
#[derive(Debug)]
pub struct IncomingResource {
    pub link_id: LinkId,
    pub status: ResourceStatus,
    pub hash: crate::hash::Hash,
    pub original_hash: crate::hash::Hash,
    pub random_hash: [u8; 4],
    /// Length of the sealed stream.
    pub size: usize,
    /// Uncompressed data size.
    pub total_size: usize,
    pub compressed: bool,
    pub encrypted: bool,
    pub split: bool,
    pub has_metadata: bool,
    pub segment_index: usize,
    pub total_segments: usize,
    pub request_id: Option<AddressHash>,
    pub is_response: bool,
    pub sdu: usize,
    pub total_parts: usize,
    pub received_count: usize,
    pub outstanding_parts: usize,
    /// Sealed parts by part number.
    pub parts: Vec<Option<Vec<u8>>>,
    pub hashmap: Vec<Option<[u8; 4]>>,
    pub hashmap_height: usize,
    pub waiting_for_hmu: bool,
    pub consecutive_completed_height: isize,
    pub window: usize,
    pub window_max: usize,
    pub window_min: usize,
    pub window_flexibility: usize,
    pub last_activity: u64,
    pub started_transferring: u64,
    /// When the last part request was sent, zero when none was.
    pub req_sent: u64,
    pub req_sent_bytes: usize,
    pub req_resp: Option<u64>,
    pub rtt: Option<u64>,
    pub rtt_rxd_bytes: u64,
    pub rtt_rxd_bytes_at_part_req: u64,
    pub req_resp_rtt_rate: Rate,
    pub req_data_rtt_rate: Rate,
    pub eifr: Option<Rate>,
    pub previous_eifr: Option<Rate>,
    pub fast_rate_rounds: usize,
    pub very_slow_rate_rounds: usize,
    pub retries_left: usize,
    pub max_retries: usize,
    pub part_timeout_factor: u64,
    /// Set once all parts arrived and assembly succeeded.
    pub assembled: Option<Vec<u8>>,
    /// Metadata from the head of the stream.
    pub metadata: Option<Vec<u8>>,
}

/// The mathematical counterpart of [`IncomingResource`].
#[verifier::ext_equal]
pub struct IncomingView {
    pub link_id: LinkId,
    pub status: ResourceStatus,
    pub hash: crate::hash::Hash,
    pub original_hash: crate::hash::Hash,
    pub random_hash: [u8; 4],
    pub size: usize,
    pub total_size: usize,
    pub compressed: bool,
    pub encrypted: bool,
    pub split: bool,
    pub has_metadata: bool,
    pub segment_index: usize,
    pub total_segments: usize,
    pub request_id: Option<AddressHash>,
    pub is_response: bool,
    pub sdu: usize,
    pub total_parts: usize,
    pub received_count: usize,
    pub outstanding_parts: usize,
    pub parts: Seq<Option<Seq<u8>>>,
    pub hashmap: Seq<Option<[u8; 4]>>,
    pub hashmap_height: usize,
    pub waiting_for_hmu: bool,
    pub consecutive_completed_height: isize,
    pub window: usize,
    pub window_max: usize,
    pub window_min: usize,
    pub window_flexibility: usize,
    pub last_activity: u64,
    pub started_transferring: u64,
    pub req_sent: u64,
    pub req_sent_bytes: usize,
    pub req_resp: Option<u64>,
    pub rtt: Option<u64>,
    pub rtt_rxd_bytes: u64,
    pub rtt_rxd_bytes_at_part_req: u64,
    pub req_resp_rtt_rate: Rate,
    pub req_data_rtt_rate: Rate,
    pub eifr: Option<Rate>,
    pub previous_eifr: Option<Rate>,
    pub fast_rate_rounds: usize,
    pub very_slow_rate_rounds: usize,
    pub retries_left: usize,
    pub max_retries: usize,
    pub part_timeout_factor: u64,
    pub assembled: Option<Seq<u8>>,
    pub metadata: Option<Seq<u8>>,
}

/// An optional byte string.
pub open spec fn content(data: Option<Vec<u8>>) -> Option<Seq<u8>> {
    match data {
        Some(data) => Some(data@),
        None => None,
    }
}

/// Optional byte strings.
pub open spec fn part_contents(parts: Seq<Option<Vec<u8>>>) -> Seq<Option<Seq<u8>>> {
    parts.map_values(|p: Option<Vec<u8>>| content(p))
}

impl View for IncomingResource {
    type V = IncomingView;

    open spec fn view(&self) -> IncomingView {
        IncomingView {
            link_id: self.link_id,
            status: self.status,
            hash: self.hash,
            original_hash: self.original_hash,
            random_hash: self.random_hash,
            size: self.size,
            total_size: self.total_size,
            compressed: self.compressed,
            encrypted: self.encrypted,
            split: self.split,
            has_metadata: self.has_metadata,
            segment_index: self.segment_index,
            total_segments: self.total_segments,
            request_id: self.request_id,
            is_response: self.is_response,
            sdu: self.sdu,
            total_parts: self.total_parts,
            received_count: self.received_count,
            outstanding_parts: self.outstanding_parts,
            parts: part_contents(self.parts@),
            hashmap: self.hashmap@,
            hashmap_height: self.hashmap_height,
            waiting_for_hmu: self.waiting_for_hmu,
            consecutive_completed_height: self.consecutive_completed_height,
            window: self.window,
            window_max: self.window_max,
            window_min: self.window_min,
            window_flexibility: self.window_flexibility,
            last_activity: self.last_activity,
            started_transferring: self.started_transferring,
            req_sent: self.req_sent,
            req_sent_bytes: self.req_sent_bytes,
            req_resp: self.req_resp,
            rtt: self.rtt,
            rtt_rxd_bytes: self.rtt_rxd_bytes,
            rtt_rxd_bytes_at_part_req: self.rtt_rxd_bytes_at_part_req,
            req_resp_rtt_rate: self.req_resp_rtt_rate,
            req_data_rtt_rate: self.req_data_rtt_rate,
            eifr: self.eifr,
            previous_eifr: self.previous_eifr,
            fast_rate_rounds: self.fast_rate_rounds,
            very_slow_rate_rounds: self.very_slow_rate_rounds,
            retries_left: self.retries_left,
            max_retries: self.max_retries,
            part_timeout_factor: self.part_timeout_factor,
            assembled: content(self.assembled),
            metadata: content(self.metadata),
        }
    }
}

/// Largest number of parts of an accepted transfer.
pub const MAX_PARTS: usize = 3145725;

/// What every operation on a receiver keeps true.
pub open spec fn receiver_wf(v: IncomingView) -> bool {
    &&& 1 <= v.total_parts <= MAX_PARTS
    &&& v.parts.len() == v.total_parts
    &&& v.hashmap.len() == v.total_parts
    &&& v.received_count == count_present(v.parts)
    &&& v.hashmap_height == count_present(v.hashmap)
    &&& v.outstanding_parts <= v.total_parts
    &&& -1 <= v.consecutive_completed_height < v.total_parts
    &&& v.consecutive_completed_height == run_end(v.parts, 0) - 1
    &&& v.window + v.total_parts <= usize::MAX
    &&& v.window_max <= WINDOW_MAX_FAST
    &&& v.window_flexibility >= 1
    &&& v.rtt_rxd_bytes <= v.received_count * PACKET_MDU
    &&& v.rtt_rxd_bytes_at_part_req <= v.rtt_rxd_bytes
    &&& v.req_sent_bytes <= HEADER_LEN + PACKET_MDU
    &&& v.fast_rate_rounds <= FAST_RATE_THRESHOLD
    &&& v.very_slow_rate_rounds <= VERY_SLOW_RATE_THRESHOLD
    &&& v.retries_left <= v.max_retries
    &&& v.max_retries == MAX_RETRIES
    &&& v.part_timeout_factor <= PART_TIMEOUT_FACTOR
    &&& v.req_data_rtt_rate.nanos > 0
    &&& v.previous_eifr is Some ==> v.previous_eifr->0.nanos > 0
    &&& v.segment_index >= 1
    &&& v.total_segments >= 1
    &&& v.sdu > 0
}

/// The receiver that an accepted advertisement makes.
pub open spec fn accepted(a: AdvertisementView, link: Link, now: u64, v: IncomingView) -> bool {
    let parts = part_count(a.transfer_size, part_size(link) as nat);
    &&& v.link_id == link.id
    &&& v.status == ResourceStatus::Transferring
    &&& v.hash@ == a.hash
    &&& v.original_hash@ == a.original_hash
    &&& v.random_hash@ == a.random_hash
    &&& v.size == a.transfer_size
    &&& v.total_size == a.data_size
    &&& v.compressed == (a.flags & FLAG_COMPRESSED != 0)
    &&& v.encrypted == (a.flags & FLAG_ENCRYPTED != 0)
    &&& v.split == (a.flags & FLAG_SPLIT != 0)
    &&& v.has_metadata == (a.flags & FLAG_HAS_METADATA != 0)
    &&& v.segment_index == a.segment_index
    &&& v.total_segments == a.total_segments
    &&& address_bytes(v.request_id) == a.request_id
    &&& v.is_response == (a.request_id is Some && a.flags & FLAG_IS_RESPONSE != 0)
    &&& v.sdu == part_size(link)
    &&& v.total_parts == (if parts == 0 {
        1
    } else {
        parts
    })
    &&& forall|i: int| 0 <= i < v.parts.len() ==> (#[trigger] v.parts[i]) is None
    &&& forall|i: int| 0 <= i < v.hashmap.len() ==> (#[trigger] v.hashmap[i]) is None
    &&& v.outstanding_parts == 0
    &&& !v.waiting_for_hmu
    &&& v.consecutive_completed_height == -1
    &&& v.window == (match link.last_resource_window {
        Some(window) => window,
        None => WINDOW,
    })
    &&& v.window_max == WINDOW_MAX_SLOW
    &&& v.window_min == WINDOW_MIN
    &&& v.window_flexibility == WINDOW_FLEXIBILITY
    &&& v.last_activity == now
    &&& v.started_transferring == now
    &&& v.req_sent == 0
    &&& v.req_sent_bytes == 0
    &&& v.req_resp is None
    &&& v.rtt is None
    &&& v.rtt_rxd_bytes == 0
    &&& v.rtt_rxd_bytes_at_part_req == 0
    &&& v.req_resp_rtt_rate.bytes == 0
    &&& v.req_data_rtt_rate.bytes == 0
    &&& v.eifr is None
    &&& v.previous_eifr == link.last_resource_eifr
    &&& v.fast_rate_rounds == 0
    &&& v.very_slow_rate_rounds == 0
    &&& v.retries_left == MAX_RETRIES
    &&& v.part_timeout_factor == PART_TIMEOUT_FACTOR
    &&& v.assembled is None
    &&& v.metadata is None
}

/// A link on which transfers can be accepted: its part size is positive, its last window leaves
/// room for indices, and its last data rate is a proper fraction.
pub open spec fn link_usable(link: Link) -> bool {
    &&& part_size(link) > 0
    &&& link.last_resource_window is Some ==> link.last_resource_window->0 + MAX_PARTS
        <= usize::MAX
    &&& link.last_resource_eifr is Some ==> link.last_resource_eifr->0.nanos > 0
}

/// The map with the entries of a hashmap segment filled in from entry `at` on, `count` of them
/// or as many as fit.
pub open spec fn filled_map(
    map: Seq<Option<[u8; 4]>>,
    at: int,
    hashes: Seq<u8>,
    count: int,
) -> Seq<Option<[u8; 4]>> {
    Seq::new(
        map.len(),
        |i: int|
            if at <= i < at + count {
                Some(four_bytes(hashes.subrange(4 * (i - at), 4 * (i - at) + 4)))
            } else {
                map[i]
            },
    )
}

/// The four-byte array with the given bytes.
pub open spec fn four_bytes(s: Seq<u8>) -> [u8; 4] {
    choose|a: [u8; 4]| a@ == s
}

/// The chosen array is the one with the given bytes.
pub proof fn four_bytes_of(a: [u8; 4])
    ensures
        four_bytes(a@) == a,
{
    let b = four_bytes(a@);
    assert(exists|x: [u8; 4]| x@ == a@);
    assert(b@ == a@);
    assert(b =~= a);
}

/// A receiver after a segment of the hashmap arrived.
pub open spec fn after_hashmap(v: IncomingView, segment: nat, hashes: Seq<u8>) -> IncomingView {
    let count = hashes.len() as int / 4;
    if v.status == ResourceStatus::Failed {
        v
    } else if segment > v.hashmap.len() / HASHMAP_MAX_LEN as nat + 1 {
        IncomingView { status: ResourceStatus::Transferring, ..v }
    } else {
        let map = filled_map(v.hashmap, segment * HASHMAP_MAX_LEN, hashes, count);
        let filled = IncomingView {
            hashmap: map,
            hashmap_height: count_present(map) as usize,
            ..v
        };
        if count < 1 {
            IncomingView { status: ResourceStatus::Failed, ..filled }
        } else {
            IncomingView { status: ResourceStatus::Transferring, waiting_for_hmu: false, ..filled }
        }
    }
}

/// The segment number and the map hashes in a hashmap update payload, behind the resource hash.
pub open spec fn hashmap_payload(data: Seq<u8>) -> Option<(nat, Seq<u8>)> {
    match msgpack::array_len_at(data) {
        Some((count, n)) => match msgpack::uint_at(data.skip(n as int)) {
            Some((segment, m)) => if count != 2 || segment > usize::MAX {
                None
            } else {
                match msgpack::bin_at(data.skip(n as int).skip(m as int)) {
                    Some((hashes, _)) => Some((segment, hashes)),
                    None => None,
                }
            },
            None => None,
        },
        None => None,
    }
}

/// A receiver after a hashmap update packet arrived.
pub open spec fn after_hashmap_packet(v: IncomingView, data: Seq<u8>, now: u64) -> IncomingView {
    if v.status == ResourceStatus::Failed || !v.waiting_for_hmu {
        v
    } else {
        let w = IncomingView { last_activity: now, retries_left: v.max_retries, ..v };
        if data.len() < 32 {
            w
        } else {
            match hashmap_payload(data.skip(32)) {
                Some((segment, hashes)) => after_hashmap(w, segment, hashes),
                None => w,
            }
        }
    }
}

impl IncomingResource {
    /// What every operation on a receiver keeps true.
    pub open spec fn wf(&self) -> bool {
        receiver_wf(self@)
    }

    /// Accepts an advertised resource.
    pub fn accept(plaintext: &[u8], link: &Link, now: u64) -> (r: Result<Self, RnsError>)
        requires
            link_usable(*link),
        ensures
            r is Ok <==> unpacked(plaintext@) is Some,
            r is Err ==> r->Err_0 == RnsError::PacketError,
            r is Ok ==> r->Ok_0.wf(),
            r is Ok ==> accepted(unpacked(plaintext@)->0, *link, now, r->Ok_0@),
    {
        let adv: ResourceAdvertisement = ResourceAdvertisement::unpack(plaintext)?;
        proof {
            crate::resource::advertisement::unpacked_is_bounded(plaintext@);
        }
        Ok(IncomingResource::accept_advertisement(&adv, link, now))
    }

    /// Accepts an unpacked advertisement.
    pub fn accept_advertisement(adv: &ResourceAdvertisement, link: &Link, now: u64) -> (receiver:
        Self)
        requires
            link_usable(*link),
            adv.transfer_size <= MAX_EFFICIENT_SIZE * 3,
            adv.segment_index >= 1,
            adv.total_segments >= 1,
        ensures
            receiver.wf(),
            accepted(adv@, *link, now, receiver@),
    {
        let sdu: usize = part_size_of(link);
        let count: usize = parts_of(adv.transfer_size, sdu);
        proof {
            part_count_bound(adv.transfer_size as nat, sdu as nat);
        }
        let total_parts: usize = if count == 0 {
            1
        } else {
            count
        };
        let mut parts: Vec<Option<Vec<u8>>> = Vec::new();
        let mut hashmap: Vec<Option<[u8; 4]>> = Vec::new();
        let mut i: usize = 0;
        while i < total_parts
            invariant
                i <= total_parts,
                parts@.len() == i,
                hashmap@.len() == i,
                forall|k: int| 0 <= k < i ==> (#[trigger] parts@[k]) is None,
                forall|k: int| 0 <= k < i ==> (#[trigger] hashmap@[k]) is None,
            decreases total_parts - i,
        {
            parts.push(None);
            hashmap.push(None);
            i += 1;
        }
        let receiver: IncomingResource = IncomingResource {
            link_id: link.id,
            status: ResourceStatus::Transferring,
            hash: adv.hash,
            original_hash: adv.original_hash,
            random_hash: adv.random_hash,
            size: adv.transfer_size,
            total_size: adv.data_size,
            compressed: adv.compressed(),
            encrypted: adv.encrypted(),
            split: adv.split(),
            has_metadata: adv.has_metadata(),
            segment_index: adv.segment_index,
            total_segments: adv.total_segments,
            request_id: adv.request_id,
            is_response: adv.is_response(),
            sdu,
            total_parts,
            received_count: 0,
            outstanding_parts: 0,
            parts,
            hashmap,
            hashmap_height: 0,
            waiting_for_hmu: false,
            consecutive_completed_height: -1,
            window: match link.last_resource_window {
                Some(window) => window,
                None => WINDOW,
            },
            window_max: WINDOW_MAX_SLOW,
            window_min: WINDOW_MIN,
            window_flexibility: WINDOW_FLEXIBILITY,
            last_activity: now,
            started_transferring: now,
            req_sent: 0,
            req_sent_bytes: 0,
            req_resp: None,
            rtt: None,
            rtt_rxd_bytes: 0,
            rtt_rxd_bytes_at_part_req: 0,
            req_resp_rtt_rate: Rate { bytes: 0, nanos: 1 },
            req_data_rtt_rate: Rate { bytes: 0, nanos: 1 },
            eifr: None,
            previous_eifr: link.last_resource_eifr,
            fast_rate_rounds: 0,
            very_slow_rate_rounds: 0,
            retries_left: MAX_RETRIES,
            max_retries: MAX_RETRIES,
            part_timeout_factor: PART_TIMEOUT_FACTOR,
            assembled: None,
            metadata: None,
        };
        proof {
            let v = receiver@;
            assert forall|k: int| 0 <= k < v.parts.len() implies (#[trigger] v.parts[k])
                is None by {
                assert(parts@[k] is None);
            }
            count_present_bound(v.parts);
            count_present_bound(v.hashmap);
            assert(run_end(v.parts, 0) == 0);
        }
        receiver
    }

    /// Fills in a segment of the hashmap.
    pub fn hashmap_update(&mut self, segment: usize, hashmap: &[u8])
        requires
            old(self).wf(),
        ensures
            final(self).wf(),
            final(self)@ == after_hashmap(old(self)@, segment as nat, hashmap@),
    {
        let ghost v = self@;
        if self.status == ResourceStatus::Failed {
            return;
        }
        self.status = ResourceStatus::Transferring;
        let count: usize = hashmap.len() / 4;
        let len: usize = self.hashmap.len();
        let max_segment: usize = len / HASHMAP_MAX_LEN + 1;
        if segment > max_segment {
            return;
        }
        let at: usize = map_offset(segment, len);
        let mut i: usize = 0;
        assert(filled_map(v.hashmap, at as int, hashmap@, 0) =~= v.hashmap);
        while i < count && i + at < len
            invariant
                i <= count,
                count == hashmap@.len() / 4,
                len == v.hashmap.len(),
                at <= len + HASHMAP_MAX_LEN,
                HASHMAP_MAX_LEN == 74,
                len <= MAX_PARTS,
                i == 0 || i + at <= len,
                v.status != ResourceStatus::Failed,
                receiver_wf(v),
                self@ == (IncomingView {
                    status: ResourceStatus::Transferring,
                    hashmap: filled_map(v.hashmap, at as int, hashmap@, i as int),
                    hashmap_height: self@.hashmap_height,
                    ..v
                }),
                self@.hashmap_height == count_present(self@.hashmap),
                self@.hashmap.len() == len,
            decreases count - i,
        {
            let entry: [u8; 4] = [
                hashmap[4 * i],
                hashmap[4 * i + 1],
                hashmap[4 * i + 2],
                hashmap[4 * i + 3],
            ];
            let ghost before = self.hashmap@;
            proof {
                assert(entry@ =~= hashmap@.subrange(4 * i as int, 4 * i + 4));
                four_bytes_of(entry);
                count_present_update(before, (i + at) as int, entry);
                count_present_bound(before.update((i + at) as int, Some(entry)));
            }
            if self.hashmap[i + at].is_none() {
                self.hashmap_height = self.hashmap_height + 1;
            }
            self.hashmap.set(i + at, Some(entry));
            i += 1;
            assert(self.hashmap@ =~= filled_map(v.hashmap, at as int, hashmap@, i as int)) by {
                assert(self.hashmap@ == before.update(i - 1 + at, Some(entry)));
            }
        }
        assert(filled_map(v.hashmap, at as int, hashmap@, i as int) =~= filled_map(
            v.hashmap,
            at as int,
            hashmap@,
            count as int,
        ));
        if count < 1 {
            self.status = ResourceStatus::Failed;
        } else {
            self.waiting_for_hmu = false;
        }
    }

    /// Handles a hashmap update: the resource hash, then the segment number and the map hashes.
    pub fn hashmap_update_packet(&mut self, plaintext: &[u8], now: u64)
        requires
            old(self).wf(),
        ensures
            final(self).wf(),
            final(self)@ == after_hashmap_packet(old(self)@, plaintext@, now),
    {
        if self.status == ResourceStatus::Failed || !self.waiting_for_hmu {
            return;
        }
        self.last_activity = now;
        self.retries_left = self.max_retries;
        if plaintext.len() < 32 {
            return;
        }
        let payload: &[u8] = &plaintext[32..plaintext.len()];
        assert(payload@ =~= plaintext@.skip(32));
        if let Some((segment, hashes)) = read_hashmap_payload(payload) {
            self.hashmap_update(segment, &hashes);
        }
    }
}

/// Reads a hashmap update payload, behind the resource hash.
fn read_hashmap_payload(data: &[u8]) -> (r: Option<(usize, Vec<u8>)>)
    ensures
        match hashmap_payload(data@) {
            Some((segment, hashes)) => r is Some && (r->0).0 == segment && (r->0).1@ == hashes,
            None => r is None,
        },
{
    let (count, rest) = msgpack::read_array_len(data)?;
    if count != 2 {
        return None;
    }
    let (segment, rest) = msgpack::read_uint(rest)?;
    if segment > usize::MAX as u64 {
        return None;
    }
    let (hashes, _) = msgpack::read_bin(rest)?;
    Some((segment as usize, hashes))
}

/// There are no more parts than bytes.
pub proof fn part_count_bound(size: nat, sdu: nat)
    requires
        sdu > 0,
    ensures
        part_count(size, sdu) <= size,
{
    let d = sdu as int;
    let n = size as int;
    let q = part_count(size, sdu) as int;
    vstd::arithmetic::div_mod::lemma_fundamental_div_mod(n + d - 1, d);
    assert(q <= n) by (nonlinear_arith)
        requires
            n + d - 1 == d * q + (n + d - 1) % d,
            0 <= (n + d - 1) % d < d,
            d >= 1,
            n >= 0,
    ;
}

/// A rate of more than `limit` bytes per second.
pub open spec fn faster_than(rate: Rate, limit: u64) -> bool {
    rate.bytes * SECOND > limit * rate.nanos
}

/// A rate of less than `limit` bytes per second.
pub open spec fn slower_than(rate: Rate, limit: u64) -> bool {
    rate.bytes * SECOND < limit * rate.nanos
}

fn is_faster(rate: Rate, limit: u64) -> (r: bool)
    ensures
        r == faster_than(rate, limit),
{
    arith::product_exceeds(rate.bytes as u128, SECOND as u128, limit as u128, rate.nanos as u128)
}

fn is_slower(rate: Rate, limit: u64) -> (r: bool)
    ensures
        r == slower_than(rate, limit),
{
    arith::product_exceeds(limit as u128, rate.nanos as u128, rate.bytes as u128, SECOND as u128)
}

/// The round-trip time after a new measurement: it moves towards the measurement by at most a
/// twentieth; the first one is the link's.
pub open spec fn adapted_rtt(current: Option<u64>, measured: u64, link_rtt: u64) -> Option<u64> {
    match current {
        None => Some(link_rtt),
        Some(current) => if measured < current {
            let eased = (current - current / 20) as u64;
            Some(
                if eased > measured {
                    eased
                } else {
                    measured
                },
            )
        } else if measured > current {
            let eased = current.saturating_add(current / 20);
            Some(
                if eased < measured {
                    eased
                } else {
                    measured
                },
            )
        } else {
            Some(current)
        },
    }
}

/// A receiver that counts one more round of the given rate if it is fast; enough of them allow
/// the fast window.
pub open spec fn counted_fast(v: IncomingView, rate: Rate) -> IncomingView {
    if faster_than(rate, RATE_FAST) && v.fast_rate_rounds < FAST_RATE_THRESHOLD {
        let rounds = (v.fast_rate_rounds + 1) as usize;
        IncomingView {
            fast_rate_rounds: rounds,
            window_max: if rounds == FAST_RATE_THRESHOLD {
                WINDOW_MAX_FAST
            } else {
                v.window_max
            },
            ..v
        }
    } else {
        v
    }
}

/// A receiver that counts one more round of the given rate if it is very slow and none was fast;
/// enough of them cap the window.
pub open spec fn counted_slow(v: IncomingView, rate: Rate) -> IncomingView {
    if v.fast_rate_rounds == 0 && slower_than(rate, RATE_VERY_SLOW) && v.very_slow_rate_rounds
        < VERY_SLOW_RATE_THRESHOLD {
        let rounds = (v.very_slow_rate_rounds + 1) as usize;
        IncomingView {
            very_slow_rate_rounds: rounds,
            window_max: if rounds == VERY_SLOW_RATE_THRESHOLD {
                WINDOW_MAX_VERY_SLOW
            } else {
                v.window_max
            },
            ..v
        }
    } else {
        v
    }
}

/// A receiver that has noticed a part of `len` bytes: the first part after a request tells the
/// round-trip time and the response rate.
pub open spec fn noticed_part(v: IncomingView, len: nat, link_rtt: u64, now: u64) -> IncomingView {
    let w = IncomingView { last_activity: now, retries_left: v.max_retries, ..v };
    if v.req_resp is None && v.req_sent > 0 {
        let measured = now.saturating_sub(v.req_sent);
        let x = IncomingView {
            req_resp: Some(now),
            part_timeout_factor: PART_TIMEOUT_FACTOR_AFTER_RTT,
            rtt: adapted_rtt(v.rtt, measured, link_rtt),
            ..w
        };
        if measured > 0 {
            let rate = Rate { bytes: (len + v.req_sent_bytes) as u64, nanos: measured };
            counted_fast(IncomingView { req_resp_rtt_rate: rate, ..x }, rate)
        } else {
            x
        }
    } else {
        w
    }
}

/// The first entry in `from..to` with this map hash, or `to` when there is none.
pub open spec fn first_match(
    map: Seq<Option<[u8; 4]>>,
    mh: Seq<u8>,
    from: int,
    to: int,
) -> int
    decreases to - from,
{
    if from >= to {
        to
    } else if map[from] is Some && map[from]->0@ == mh {
        from
    } else {
        first_match(map, mh, from + 1, to)
    }
}

/// The first entry from `i` on that is not present, or the number of entries.
pub open spec fn run_end<T>(entries: Seq<Option<T>>, i: int) -> int
    decreases entries.len() - i,
{
    if 0 <= i < entries.len() && entries[i] is Some {
        run_end(entries, i + 1)
    } else {
        i
    }
}

/// Where the search for the slot of a part starts.
pub open spec fn window_start(v: IncomingView) -> int {
    if v.consecutive_completed_height >= 0 {
        v.consecutive_completed_height as int
    } else {
        0
    }
}

/// Where the search for the slot of a part ends.
pub open spec fn window_end(v: IncomingView) -> int {
    if window_start(v) + v.window < v.hashmap.len() {
        window_start(v) + v.window
    } else {
        v.hashmap.len() as int
    }
}

/// The slot of a part: the first one in the window with its map hash.
pub open spec fn slot_of(v: IncomingView, data: Seq<u8>) -> int {
    first_match(
        v.hashmap,
        part_map_hash(data, v.random_hash@),
        window_start(v),
        window_end(v),
    )
}

/// How far the parts have arrived without a gap once they are `parts`: to the end of the run that
/// starts behind the height so far.
pub open spec fn height_after(v: IncomingView, parts: Seq<Option<Seq<u8>>>) -> isize {
    (run_end(parts, v.consecutive_completed_height + 1) - 1) as isize
}

/// A receiver that has put a part into the empty slot `k`.
pub open spec fn placed_part(v: IncomingView, k: int, data: Seq<u8>) -> IncomingView {
    let parts = v.parts.update(k, Some(data));
    IncomingView {
        parts,
        rtt_rxd_bytes: (v.rtt_rxd_bytes + data.len()) as u64,
        received_count: (v.received_count + 1) as usize,
        outstanding_parts: v.outstanding_parts.saturating_sub(1),
        consecutive_completed_height: height_after(v, parts),
        ..v
    }
}

/// A receiver that has put a part into its slot, if it has one and the slot is empty.
pub open spec fn stored_part(v: IncomingView, data: Seq<u8>) -> IncomingView {
    let k = slot_of(v, data);
    let w = IncomingView { status: ResourceStatus::Transferring, ..v };
    if k < window_end(v) && v.parts[k] is None {
        placed_part(w, k, data)
    } else {
        w
    }
}

/// A receiver whose window has grown by one, where its limit allows it.
pub open spec fn grown_window(v: IncomingView) -> IncomingView {
    if v.window < v.window_max {
        let window = (v.window + 1) as usize;
        IncomingView {
            window,
            window_min: if window.saturating_sub(v.window_min) > v.window_flexibility - 1 {
                (v.window_min + 1) as usize
            } else {
                v.window_min
            },
            ..v
        }
    } else {
        v
    }
}

/// A receiver that has measured the data rate of the request it has just seen answered.
pub open spec fn measured_rate(v: IncomingView, now: u64) -> IncomingView {
    let elapsed = now.saturating_sub(v.req_sent);
    if v.req_sent > 0 && elapsed > 0 {
        let rate = Rate {
            bytes: (v.rtt_rxd_bytes - v.rtt_rxd_bytes_at_part_req) as u64,
            nanos: elapsed,
        };
        counted_slow(
            counted_fast(
                IncomingView {
                    req_data_rtt_rate: rate,
                    rtt_rxd_bytes_at_part_req: v.rtt_rxd_bytes,
                    ..v
                },
                rate,
            ),
            rate,
        )
    } else {
        v
    }
}

/// The first part that the next request looks at.
pub open spec fn request_start(v: IncomingView) -> int {
    v.consecutive_completed_height + 1
}

/// Where the next request stops looking, unless the map runs out before.
pub open spec fn request_stop(v: IncomingView) -> int {
    if request_start(v) + v.window < v.parts.len() {
        request_start(v) + v.window
    } else {
        v.parts.len() as int
    }
}

/// The first part in `from..to` that is missing and has no map hash either, or `to` when there is
/// none.
pub open spec fn map_gap(v: IncomingView, from: int, to: int) -> int
    decreases to - from,
{
    if from >= to {
        to
    } else if v.parts[from] is None && v.hashmap[from] is None {
        from
    } else {
        map_gap(v, from + 1, to)
    }
}

/// The map hashes of the missing parts in `from..to`, one behind the other.
pub open spec fn missing_hashes(v: IncomingView, from: int, to: int) -> Seq<u8>
    decreases to - from,
{
    if from >= to {
        Seq::empty()
    } else if v.parts[to - 1] is None && v.hashmap[to - 1] is Some {
        missing_hashes(v, from, to - 1) + v.hashmap[to - 1]->0@
    } else {
        missing_hashes(v, from, to - 1)
    }
}

/// The payload of a part request.
pub open spec fn request_payload(
    last: Option<Seq<u8>>,
    hash: Seq<u8>,
    missing: Seq<u8>,
) -> Seq<u8> {
    match last {
        Some(last) => seq![HASHMAP_IS_EXHAUSTED] + last + hash + missing,
        None => seq![HASHMAP_IS_NOT_EXHAUSTED] + hash + missing,
    }
}

/// A receiver that has sent a part request, or failed to, and the packets it sent.
pub open spec fn sent_request(v: IncomingView, data: Seq<u8>, now: u64) -> (
    IncomingView,
    Seq<LinkPacketView>,
) {
    if sealed_len(data.len()) <= PACKET_MDU {
        (
            IncomingView {
                last_activity: now,
                req_sent: now,
                req_sent_bytes: (HEADER_LEN + sealed_len(data.len())) as usize,
                rtt_rxd_bytes_at_part_req: v.rtt_rxd_bytes,
                req_resp: None,
                ..v
            },
            seq![sealed_packet(PacketContext::ResourceRequest, data)],
        )
    } else {
        (IncomingView { status: ResourceStatus::Failed, ..v }, Seq::empty())
    }
}

/// What asking for the next parts makes of a receiver, and the packets it sends: the map hashes
/// of the missing parts in the window, up to where the map runs out; where it does, more of the
/// map is asked for by its last known entry.
pub open spec fn after_request_next(v: IncomingView, now: u64) -> (
    IncomingView,
    Seq<LinkPacketView>,
) {
    if v.status == ResourceStatus::Failed || v.waiting_for_hmu {
        (v, Seq::empty())
    } else {
        let stop = map_gap(v, request_start(v), request_stop(v));
        let missing = missing_hashes(v, request_start(v), stop);
        let w = IncomingView { outstanding_parts: (missing.len() / 4) as usize, ..v };
        if stop < request_stop(v) {
            if v.hashmap_height == 0 || v.hashmap[v.hashmap_height - 1] is None {
                (IncomingView { status: ResourceStatus::Failed, ..w }, Seq::empty())
            } else {
                sent_request(
                    IncomingView { waiting_for_hmu: true, ..w },
                    request_payload(Some(v.hashmap[v.hashmap_height - 1]->0@), v.hash@, missing),
                    now,
                )
            }
        } else {
            sent_request(w, request_payload(None, v.hash@, missing), now)
        }
    }
}

/// What a part makes of a receiver, the packets it sends, and whether all parts have arrived.
pub open spec fn after_part(v: IncomingView, data: Seq<u8>, link_rtt: u64, now: u64) -> (
    IncomingView,
    Seq<LinkPacketView>,
    bool,
) {
    if v.status == ResourceStatus::Failed {
        (v, Seq::empty(), false)
    } else {
        let w = stored_part(noticed_part(v, data.len(), link_rtt, now), data);
        if w.received_count == w.total_parts && w.assembled is None {
            (IncomingView { status: ResourceStatus::Assembling, ..w }, Seq::empty(), true)
        } else if w.outstanding_parts == 0 {
            let (x, packets) = after_request_next(measured_rate(grown_window(w), now), now);
            (x, packets, false)
        } else {
            (w, Seq::empty(), false)
        }
    }
}

/// Missing map hashes are whole ones, no more than there are parts.
proof fn missing_len(v: IncomingView, from: int, to: int)
    requires
        from <= to,
    ensures
        missing_hashes(v, from, to).len() % 4 == 0,
        missing_hashes(v, from, to).len() <= 4 * (to - from),
    decreases to - from,
{
    if from < to {
        missing_len(v, from, to - 1);
    }
}

/// A run of present entries reaches to the first missing entry, or to the end.
pub proof fn run_end_bound<T>(entries: Seq<Option<T>>, i: int)
    requires
        0 <= i <= entries.len(),
    ensures
        i <= run_end(entries, i) <= entries.len(),
        forall|k: int| i <= k < run_end(entries, i) ==> (#[trigger] entries[k]) is Some,
        run_end(entries, i) < entries.len() ==> entries[run_end(entries, i)] is None,
    decreases entries.len() - i,
{
    if i < entries.len() && entries[i] is Some {
        run_end_bound(entries, i + 1);
    }
}

/// Filling in a missing entry lets the run from `i` on go on from where it ended.
proof fn run_end_update<T>(entries: Seq<Option<T>>, i: int, k: int, x: T)
    requires
        0 <= i <= entries.len(),
        0 <= k < entries.len(),
        entries[k] is None,
    ensures
        run_end(entries.update(k, Some(x)), i) == run_end(
            entries.update(k, Some(x)),
            run_end(entries, i),
        ),
    decreases entries.len() - i,
{
    if i < entries.len() && entries[i] is Some {
        run_end_update(entries, i + 1, k, x);
    }
}

impl IncomingResource {
    /// Counts one more round of the given rate if it is fast.
    fn count_fast(&mut self, rate: Rate)
        requires
            old(self).wf(),
        ensures
            final(self).wf(),
            final(self)@ == counted_fast(old(self)@, rate),
    {
        if self.fast_rate_rounds < FAST_RATE_THRESHOLD && is_faster(rate, RATE_FAST) {
            self.fast_rate_rounds = self.fast_rate_rounds + 1;
            if self.fast_rate_rounds == FAST_RATE_THRESHOLD {
                self.window_max = WINDOW_MAX_FAST;
            }
        }
    }

    /// Counts one more round of the given rate if it is very slow and none was fast.
    fn count_slow(&mut self, rate: Rate)
        requires
            old(self).wf(),
        ensures
            final(self).wf(),
            final(self)@ == counted_slow(old(self)@, rate),
    {
        if self.fast_rate_rounds == 0 && self.very_slow_rate_rounds < VERY_SLOW_RATE_THRESHOLD
            && is_slower(rate, RATE_VERY_SLOW) {
            self.very_slow_rate_rounds = self.very_slow_rate_rounds + 1;
            if self.very_slow_rate_rounds == VERY_SLOW_RATE_THRESHOLD {
                self.window_max = WINDOW_MAX_VERY_SLOW;
            }
        }
    }

    /// Notices a part.
    fn notice_part(&mut self, len: usize, link_rtt: u64, now: u64)
        requires
            old(self).wf(),
            len <= PACKET_MDU,
        ensures
            final(self).wf(),
            final(self)@ == noticed_part(old(self)@, len as nat, link_rtt, now),
    {
        self.last_activity = now;
        self.retries_left = self.max_retries;
        if self.req_resp.is_none() && self.req_sent > 0 {
            let measured: u64 = now.saturating_sub(self.req_sent);
            self.req_resp = Some(now);
            self.part_timeout_factor = PART_TIMEOUT_FACTOR_AFTER_RTT;
            self.rtt = adapt_rtt(self.rtt, measured, link_rtt);
            if measured > 0 {
                let rate: Rate = Rate {
                    bytes: (len + self.req_sent_bytes) as u64,
                    nanos: measured,
                };
                self.req_resp_rtt_rate = rate;
                self.count_fast(rate);
            }
        }
    }

    /// The first slot in `from..to` with this map hash, or `to` when there is none.
    fn find_slot(&self, mh: &[u8; 4], from: usize, to: usize) -> (r: usize)
        requires
            from <= to <= self.hashmap@.len(),
        ensures
            r == first_match(self.hashmap@, mh@, from as int, to as int),
            from <= r <= to,
    {
        let mut i: usize = from;
        while i < to
            invariant
                from <= i <= to <= self.hashmap@.len(),
                first_match(self.hashmap@, mh@, from as int, to as int) == first_match(
                    self.hashmap@,
                    mh@,
                    i as int,
                    to as int,
                ),
            decreases to - i,
        {
            if let Some(entry) = &self.hashmap[i] {
                if same_map_hash(entry, mh) {
                    return i;
                }
                assert(entry@ != mh@) by {
                    if entry@ == mh@ {
                        assert(*entry =~= *mh);
                    }
                }
            }
            i += 1;
        }
        to
    }

    /// The first part from `from` on that has not arrived.
    fn find_missing(&self, from: usize) -> (r: usize)
        requires
            from <= self.parts@.len(),
        ensures
            r == run_end(self@.parts, from as int),
            from <= r <= self.parts@.len(),
    {
        let mut i: usize = from;
        while i < self.parts.len() && self.parts[i].is_some()
            invariant
                from <= i <= self.parts@.len(),
                run_end(self@.parts, from as int) == run_end(self@.parts, i as int),
            decreases self.parts@.len() - i,
        {
            i += 1;
        }
        i
    }

    /// Puts a part into the empty slot `k`.
    fn place_part(&mut self, k: usize, data: &[u8])
        requires
            old(self).wf(),
            data@.len() <= PACKET_MDU,
            k < old(self).total_parts,
            old(self)@.parts[k as int] is None,
        ensures
            final(self).wf(),
            final(self)@ == placed_part(old(self)@, k as int, data@),
    {
        let ghost v = self@;
        proof {
            count_present_update(v.parts, k as int, data@);
            count_present_bound(v.parts.update(k as int, Some(data@)));
            assert(v.received_count * PACKET_MDU + PACKET_MDU == (v.received_count + 1)
                * PACKET_MDU) by (nonlinear_arith);
            assert((v.received_count + 1) * PACKET_MDU <= MAX_PARTS * 2048) by (nonlinear_arith)
                requires
                    v.received_count + 1 <= MAX_PARTS,
                    PACKET_MDU == 2048,
            ;
        }
        self.parts.set(k, Some(bytes::to_vec(data)));
        assert(self@.parts =~= v.parts.update(k as int, Some(data@)));
        proof {
            run_end_update(v.parts, 0, k as int, data@);
        }
        let run: usize = self.find_missing((self.consecutive_completed_height + 1) as usize);
        self.rtt_rxd_bytes = self.rtt_rxd_bytes + data.len() as u64;
        self.received_count = self.received_count + 1;
        self.outstanding_parts = self.outstanding_parts.saturating_sub(1);
        self.consecutive_completed_height = (run as isize) - 1;
    }

    /// The slot of a part and the end of the window it is looked for in.
    fn find_slot_of(&self, data: &[u8]) -> (r: (usize, usize))
        requires
            self.wf(),
        ensures
            r.0 == slot_of(self@, data@),
            r.1 == window_end(self@),
            r.0 <= r.1 <= self.total_parts,
    {
        let mh: [u8; 4] = map_hash(data, &self.random_hash);
        let start: usize = if self.consecutive_completed_height >= 0 {
            self.consecutive_completed_height as usize
        } else {
            0
        };
        let len: usize = self.hashmap.len();
        let end: usize = if start + self.window < len {
            start + self.window
        } else {
            len
        };
        (self.find_slot(&mh, start, end), end)
    }

    /// Puts a part into its slot, if it has one and the slot is empty.
    fn store_part(&mut self, data: &[u8])
        requires
            old(self).wf(),
            data@.len() <= PACKET_MDU,
        ensures
            final(self).wf(),
            final(self)@ == stored_part(old(self)@, data@),
    {
        let (k, end) = self.find_slot_of(data);
        self.status = ResourceStatus::Transferring;
        if k < end {
            assert(self@.parts[k as int] == content(self.parts@[k as int]));
            if self.parts[k].is_none() {
                self.place_part(k, data);
            }
        }
    }

    /// Grows the window by one, where its limit allows it.
    fn grow_window(&mut self)
        requires
            old(self).wf(),
        ensures
            final(self).wf(),
            final(self)@ == grown_window(old(self)@),
    {
        if self.window < self.window_max {
            self.window = self.window + 1;
            if self.window.saturating_sub(self.window_min) > self.window_flexibility - 1 {
                self.window_min = self.window_min + 1;
            }
        }
    }

    /// Measures the data rate of the request that has just been answered.
    fn measure_rate(&mut self, now: u64)
        requires
            old(self).wf(),
        ensures
            final(self).wf(),
            final(self)@ == measured_rate(old(self)@, now),
    {
        let elapsed: u64 = now.saturating_sub(self.req_sent);
        if self.req_sent > 0 && elapsed > 0 {
            let rate: Rate = Rate {
                bytes: self.rtt_rxd_bytes - self.rtt_rxd_bytes_at_part_req,
                nanos: elapsed,
            };
            self.req_data_rtt_rate = rate;
            self.rtt_rxd_bytes_at_part_req = self.rtt_rxd_bytes;
            self.count_fast(rate);
            self.count_slow(rate);
        }
    }

    /// Collects the map hashes of the missing parts in the window, up to where the map runs out.
    /// Returns them and whether it did.
    fn collect_missing(&self) -> (r: (Vec<u8>, bool))
        requires
            self.wf(),
        ensures
            r.0@ == missing_hashes(
                self@,
                request_start(self@),
                map_gap(self@, request_start(self@), request_stop(self@)),
            ),
            r.1 == (map_gap(self@, request_start(self@), request_stop(self@)) < request_stop(
                self@,
            )),
            r.0@.len() / 4 <= self.total_parts,
    {
        let ghost v = self@;
        let start: usize = (self.consecutive_completed_height + 1) as usize;
        let len: usize = self.parts.len();
        let stop: usize = if start + self.window < len {
            start + self.window
        } else {
            len
        };
        let mut missing: Vec<u8> = Vec::new();
        let mut pn: usize = start;
        let mut exhausted: bool = false;
        while pn < stop && !exhausted
            invariant
                start <= pn <= stop <= v.parts.len(),
                v == self@,
                v.parts.len() == self.parts@.len(),
                v.hashmap.len() == v.parts.len(),
                missing@ == missing_hashes(v, start as int, pn as int),
                map_gap(v, start as int, stop as int) == (if exhausted {
                    pn as int
                } else {
                    map_gap(v, pn as int, stop as int)
                }),
                exhausted ==> pn < stop,
            decreases stop - pn, !exhausted as int,
        {
            assert(v.parts[pn as int] == content(self.parts@[pn as int]));
            if self.parts[pn].is_none() {
                match &self.hashmap[pn] {
                    Some(entry) => {
                        bytes::append(&mut missing, entry);
                        pn += 1;
                    },
                    None => {
                        exhausted = true;
                    },
                }
            } else {
                pn += 1;
            }
        }
        proof {
            missing_len(v, start as int, pn as int);
        }
        (missing, exhausted)
    }

    /// Sends a part request.
    fn send_request(&mut self, link: &Link, data: &[u8], now: u64, tx: &mut ResourceTx)
        requires
            old(self).wf(),
        ensures
            final(self).wf(),
            final(self)@ == sent_request(old(self)@, data@, now).0,
            final(tx)@ == old(tx)@ + sent_request(old(self)@, data@, now).1,
    {
        match link.context_packet(data, PacketContext::ResourceRequest) {
            Ok(packet) => {
                self.last_activity = now;
                self.req_sent = now;
                self.req_sent_bytes = HEADER_LEN + packet.wire_data_len();
                self.rtt_rxd_bytes_at_part_req = self.rtt_rxd_bytes;
                self.req_resp = None;
                tx.push(packet);
                assert(tx@ =~= old(tx)@ + seq![
                    sealed_packet(PacketContext::ResourceRequest, data@),
                ]);
            },
            Err(_) => {
                self.status = ResourceStatus::Failed;
                assert(tx@ =~= old(tx)@ + Seq::<LinkPacketView>::empty());
            },
        }
    }

    /// Asks for the next parts.
    pub fn request_next(&mut self, link: &Link, now: u64, tx: &mut ResourceTx)
        requires
            old(self).wf(),
        ensures
            final(self).wf(),
            final(self)@ == after_request_next(old(self)@, now).0,
            final(tx)@ == old(tx)@ + after_request_next(old(self)@, now).1,
    {
        assert(tx@ =~= old(tx)@ + Seq::<LinkPacketView>::empty());
        if self.status == ResourceStatus::Failed || self.waiting_for_hmu {
            return;
        }
        let (missing, exhausted) = self.collect_missing();
        self.outstanding_parts = missing.len() / 4;
        let mut data: Vec<u8> = Vec::new();
        if exhausted {
            if self.hashmap_height == 0 {
                self.status = ResourceStatus::Failed;
                return;
            }
            proof {
                count_present_bound(self.hashmap@);
            }
            match self.hashmap[self.hashmap_height - 1] {
                Some(last) => {
                    data.push(HASHMAP_IS_EXHAUSTED);
                    bytes::append(&mut data, &last);
                    assert(data@ =~= seq![HASHMAP_IS_EXHAUSTED] + last@);
                },
                None => {
                    self.status = ResourceStatus::Failed;
                    return;
                },
            }
            self.waiting_for_hmu = true;
        } else {
            data.push(HASHMAP_IS_NOT_EXHAUSTED);
            assert(data@ =~= seq![HASHMAP_IS_NOT_EXHAUSTED]);
        }
        bytes::append(&mut data, self.hash.as_slice());
        bytes::append(&mut data, &missing);
        self.send_request(link, &data, now, tx);
    }

    /// Handles a part. Returns whether all parts have arrived.
    pub fn receive_part(
        &mut self,
        data: &[u8],
        link: &Link,
        now: u64,
        tx: &mut ResourceTx,
    ) -> (r: bool)
        requires
            old(self).wf(),
            data@.len() <= PACKET_MDU,
        ensures
            final(self).wf(),
            final(self)@ == after_part(old(self)@, data@, link.rtt, now).0,
            final(tx)@ == old(tx)@ + after_part(old(self)@, data@, link.rtt, now).1,
            r == after_part(old(self)@, data@, link.rtt, now).2,
    {
        assert(tx@ =~= old(tx)@ + Seq::<LinkPacketView>::empty());
        if self.status == ResourceStatus::Failed {
            return false;
        }
        self.notice_part(data.len(), link.rtt, now);
        self.store_part(data);
        if self.received_count == self.total_parts && self.assembled.is_none() {
            self.status = ResourceStatus::Assembling;
            return true;
        }
        if self.outstanding_parts == 0 {
            self.grow_window();
            self.measure_rate(now);
            self.request_next(link, now, tx);
        }
        false
    }
}

/// The round-trip time after a new measurement.
fn adapt_rtt(current: Option<u64>, measured: u64, link_rtt: u64) -> (r: Option<u64>)
    ensures
        r == adapted_rtt(current, measured, link_rtt),
{
    match current {
        None => Some(link_rtt),
        Some(current) => {
            if measured < current {
                let eased: u64 = current - current / 20;
                Some(
                    if eased > measured {
                        eased
                    } else {
                        measured
                    },
                )
            } else if measured > current {
                let eased: u64 = current.saturating_add(current / 20);
                Some(
                    if eased < measured {
                        eased
                    } else {
                        measured
                    },
                )
            } else {
                Some(current)
            }
        },
    }
}

/// The parts that have arrived, one behind the other.
pub open spec fn received_stream(parts: Seq<Option<Seq<u8>>>) -> Seq<u8>
    decreases parts.len(),
{
    if parts.len() == 0 {
        Seq::empty()
    } else {
        received_stream(parts.drop_last()) + (match parts.last() {
            Some(part) => part,
            None => Seq::empty(),
        })
    }
}

/// The data in an unsealed stream: what follows the random hash, decompressed where needed.
pub open spec fn stream_data(plain: Option<Seq<u8>>, compressed: bool, max_size: usize) -> Result<
    Seq<u8>,
    RnsError,
> {
    match plain {
        None => Err(RnsError::ResourceMsg("resource decryption failed")),
        Some(plain) => {
            let payload = plain.skip(
                if plain.len() < 4 {
                    plain.len() as int
                } else {
                    4
                },
            );
            if compressed {
                bounded_output(
                    bz2_decompressed(payload, (max_size as u64).saturating_add(1) as nat),
                    max_size as nat,
                )
            } else {
                Ok(payload)
            }
        },
    }
}

/// What assembling makes of a receiver whose data is `data`, and what it returns.
pub open spec fn after_data(v: IncomingView, data: Seq<u8>) -> (
    IncomingView,
    Result<Seq<u8>, RnsError>,
) {
    let corrupt = IncomingView { status: ResourceStatus::Corrupt, ..v };
    if sha256_digest(data + v.random_hash@) != v.hash@ {
        (corrupt, Err(RnsError::ResourceMsg("resource hash mismatch")))
    } else if v.has_metadata && v.segment_index == 1 {
        if data.len() < 3 {
            (
                corrupt,
                Err(RnsError::ResourceMsg("metadata resource shorter than its length prefix")),
            )
        } else {
            match leading_metadata(data) {
                None => (corrupt, Err(RnsError::ResourceMsg("metadata length exceeds segment"))),
                Some((metadata, at)) => (
                    IncomingView { metadata: Some(metadata), assembled: Some(data), ..v },
                    Ok(data.skip(at as int)),
                ),
            }
        }
    } else {
        (IncomingView { assembled: Some(data), ..v }, Ok(data))
    }
}

/// The stream that assembling works on: what the link unsealed, or the parts themselves when
/// they are not sealed.
pub open spec fn unsealed_stream(v: IncomingView, unsealed: Option<Seq<u8>>) -> Option<Seq<u8>> {
    if v.encrypted {
        unsealed
    } else {
        Some(received_stream(v.parts))
    }
}

/// What assembling makes of a receiver, and what it returns.
pub open spec fn after_assembly(v: IncomingView, unsealed: Option<Seq<u8>>, max_size: usize) -> (
    IncomingView,
    Result<Seq<u8>, RnsError>,
) {
    match stream_data(unsealed_stream(v, unsealed), v.compressed, max_size) {
        Err(err) => (v, Err(err)),
        Ok(data) => after_data(v, data),
    }
}

/// The proof that a receiver sends: the resource hash, and the hash of the data and that hash.
pub open spec fn proof_payload(hash: Seq<u8>, data: Seq<u8>) -> Seq<u8> {
    hash + sha256_digest(data + hash)
}

/// The advertisement that a receiver reconstructs.
pub open spec fn receiver_advertisement(v: IncomingView) -> AdvertisementView {
    AdvertisementView {
        transfer_size: v.size as nat,
        data_size: v.total_size as nat,
        parts: v.total_parts as nat,
        hash: v.hash@,
        random_hash: v.random_hash@,
        original_hash: v.original_hash@,
        segment_index: v.segment_index as nat,
        total_segments: v.total_segments as nat,
        request_id: address_bytes(v.request_id),
        flags: flag_bits(
            v.encrypted,
            v.compressed,
            v.split,
            v.has_metadata,
            v.request_id is Some,
            v.is_response,
        ),
        hashmap: known_hashes(v.hashmap.take(first_entries(v))),
    }
}

/// How many entries of the map an advertisement carries.
pub open spec fn first_entries(v: IncomingView) -> int {
    if v.hashmap.len() < HASHMAP_MAX_LEN {
        v.hashmap.len() as int
    } else {
        HASHMAP_MAX_LEN as int
    }
}

/// The known map hashes, one behind the other.
pub open spec fn known_hashes(map: Seq<Option<[u8; 4]>>) -> Seq<u8>
    decreases map.len(),
{
    if map.len() == 0 {
        Seq::empty()
    } else {
        known_hashes(map.drop_last()) + (match map.last() {
            Some(entry) => entry@,
            None => Seq::empty(),
        })
    }
}

/// The rate at which a receiver expects data: measured, as on the last transfer, or by the cost
/// of establishing the link.
pub open spec fn expected_rate(v: IncomingView, link: Link) -> Rate {
    if v.req_data_rtt_rate.bytes != 0 {
        v.req_data_rtt_rate
    } else if v.previous_eifr is Some {
        v.previous_eifr->0
    } else {
        let rtt = match v.rtt {
            Some(rtt) => rtt,
            None => link.rtt,
        };
        Rate {
            bytes: link.establishment_cost,
            nanos: if rtt < 100_000 {
                100_000
            } else {
                rtt
            },
        }
    }
}

/// A rate in bits per second as a fraction, no less than one bit in ten thousand seconds.
pub open spec fn bit_rate(rate: Rate) -> (int, int) {
    let bits = rate.bytes * (8 * SECOND);
    if bits * 10_000 >= rate.nanos {
        (bits, rate.nanos as int)
    } else {
        (1, 10_000)
    }
}

/// How many bits' time a receiver waits for an answer.
pub open spec fn awaited_bits(v: IncomingView) -> int {
    if v.req_resp_rtt_rate.bytes != 0 {
        v.part_timeout_factor * v.outstanding_parts * v.sdu * 8 + (if v.waiting_for_hmu
            || v.outstanding_parts == 0 {
            v.sdu * (4 * HMU_WAIT_FACTOR_DOUBLED)
        } else {
            0
        })
    } else {
        v.part_timeout_factor * 3 * v.sdu
    }
}

/// When the additional time of a receiver starts to run out.
pub open spec fn grace_end(v: IncomingView) -> int {
    v.last_activity + RETRY_GRACE_TIME + (v.max_retries - v.retries_left) * PER_RETRY_DELAY
}

/// The answer to the last request is overdue at the expected rate.
pub open spec fn overdue(v: IncomingView, rate: Rate, now: u64) -> bool {
    let (bits, nanos) = bit_rate(rate);
    now > grace_end(v) && (now - grace_end(v)) * bits > awaited_bits(v) * (nanos * SECOND)
}

/// A receiver whose window has shrunk after a timeout. Its limit goes down with it, twice where it
/// would be too far above.
pub open spec fn shrunk_window(v: IncomingView) -> IncomingView {
    if v.window > v.window_min {
        let window = (v.window - 1) as usize;
        if v.window_max > v.window_min {
            let lowered = (v.window_max - 1) as usize;
            IncomingView {
                window,
                window_max: if lowered.saturating_sub(window) > v.window_flexibility - 1 {
                    (lowered - 1) as usize
                } else {
                    lowered
                },
                ..v
            }
        } else {
            IncomingView { window, ..v }
        }
    } else {
        v
    }
}

/// What a watchdog pass makes of a receiver, the packets it sends, and whether the transfer
/// failed.
pub open spec fn after_receiver_check(v: IncomingView, link: Link, now: u64) -> (
    IncomingView,
    Seq<LinkPacketView>,
    bool,
) {
    if v.status != ResourceStatus::Transferring {
        (v, Seq::empty(), false)
    } else {
        let rate = expected_rate(v, link);
        let w = IncomingView { eifr: Some(rate), ..v };
        if !overdue(w, rate, now) {
            (w, Seq::empty(), false)
        } else if v.retries_left > 0 {
            let (x, packets) = after_request_next(
                IncomingView {
                    retries_left: (v.retries_left - 1) as usize,
                    waiting_for_hmu: false,
                    ..shrunk_window(w)
                },
                now,
            );
            (x, packets, false)
        } else {
            (IncomingView { status: ResourceStatus::Failed, ..w }, Seq::empty(), true)
        }
    }
}

/// Transfer progress of a receiver. Nothing but a completed last segment counts as all of a
/// split resource.
pub open spec fn receiver_progress(v: IncomingView) -> Progress {
    if v.status == ResourceStatus::Complete && v.segment_index == v.total_segments {
        Progress { done: 1, total: 1 }
    } else if !v.split {
        at_most_one((v.received_count as int, v.total_parts as int))
    } else {
        let (done, total) = segment_progress(
            v.received_count as int,
            v.total_parts as int,
            v.segment_index as int,
            v.total_segments as int,
            part_count(MAX_EFFICIENT_SIZE as nat, v.sdu as nat) as int,
        );
        if done * 1000 > total * 999 {
            Progress { done: 999, total: 1000 }
        } else {
            Progress { done: done as u128, total: total as u128 }
        }
    }
}

/// A rate in bits per second as a fraction whose lower part is scaled to nanoseconds.
fn bits_per_second(rate: Rate) -> (r: (u128, u128))
    ensures
        r.0 == bit_rate(rate).0,
        r.1 == bit_rate(rate).1 * SECOND,
{
    let bytes: u128 = rate.bytes as u128;
    let nanos: u128 = rate.nanos as u128;
    assert(bytes <= 0xffff_ffff_ffff_ffff && nanos <= 0xffff_ffff_ffff_ffff);
    let bits: u128 = bytes * 8_000_000_000;
    if bits * 10_000 >= nanos {
        (bits, nanos * 1_000_000_000)
    } else {
        (1, 10_000_000_000_000)
    }
}

/// Where a segment of the map begins.
fn map_offset(segment: usize, len: usize) -> (r: usize)
    requires
        len <= MAX_PARTS,
        segment <= len / HASHMAP_MAX_LEN + 1,
    ensures
        r == segment * HASHMAP_MAX_LEN,
        r <= len + HASHMAP_MAX_LEN,
{
    let width: usize = HASHMAP_MAX_LEN;
    assert(width == 74);
    assert(segment * width == segment * 74) by (nonlinear_arith)
        requires
            width == 74,
    ;
    segment * width
}

impl IncomingResource {
    /// The parts that have arrived, one behind the other: what the link unseals.
    pub fn sealed_stream(&self) -> (r: Vec<u8>)
        ensures
            r@ == received_stream(self@.parts),
    {
        let mut stream: Vec<u8> = Vec::new();
        let mut i: usize = 0;
        let ghost parts = self@.parts;
        assert(parts.take(0) =~= Seq::<Option<Seq<u8>>>::empty());
        while i < self.parts.len()
            invariant
                i <= self.parts@.len(),
                parts == self@.parts,
                parts.len() == self.parts@.len(),
                stream@ == received_stream(parts.take(i as int)),
            decreases self.parts@.len() - i,
        {
            let ghost before = stream@;
            assert(parts[i as int] == content(self.parts@[i as int]));
            if let Some(part) = &self.parts[i] {
                bytes::append(&mut stream, part);
            }
            i += 1;
            assert(parts.take(i as int).drop_last() =~= parts.take(i - 1));
            assert(stream@ =~= received_stream(parts.take(i as int)));
        }
        assert(parts.take(i as int) =~= parts);
        stream
    }

    /// The data in an unsealed stream.
    fn data_of(&self, plain: &[u8], max_size: usize) -> (r: Result<Vec<u8>, RnsError>)
        ensures
            match stream_data(Some(plain@), self.compressed, max_size) {
                Ok(data) => r is Ok && r->Ok_0@ == data,
                Err(err) => r is Err && r->Err_0 == err,
            },
    {
        let head: usize = if plain.len() < 4 {
            plain.len()
        } else {
            4
        };
        let payload: &[u8] = &plain[head..plain.len()];
        assert(payload@ =~= plain@.skip(head as int));
        if self.compressed {
            compress::decompress(payload, max_size)
        } else {
            Ok(bytes::to_vec(payload))
        }
    }

    /// Checks the data of this segment and takes the metadata off its head.
    pub fn accept_data(&mut self, data: Vec<u8>) -> (r: Result<Vec<u8>, RnsError>)
        requires
            old(self).wf(),
        ensures
            final(self).wf(),
            final(self)@ == after_data(old(self)@, data@).0,
            match after_data(old(self)@, data@).1 {
                Ok(rest) => r is Ok && r->Ok_0@ == rest,
                Err(err) => r is Err && r->Err_0 == err,
            },
    {
        let calculated: crate::hash::Hash = crate::hash::Hash::new_from_parts(
            &data,
            &self.random_hash,
        );
        if !bytes::equal(calculated.as_slice(), self.hash.as_slice()) {
            self.status = ResourceStatus::Corrupt;
            return Err(RnsError::ResourceMsg("resource hash mismatch"));
        }
        if self.has_metadata && self.segment_index == 1 {
            if data.len() < 3 {
                self.status = ResourceStatus::Corrupt;
                return Err(
                    RnsError::ResourceMsg("metadata resource shorter than its length prefix"),
                );
            }
            let metadata_size: usize = data[0] as usize * 65536 + data[1] as usize * 256 + data[2]
                as usize;
            proof {
                reveal_with_fuel(be_value, 4);
                let head = data@.subrange(0, 3);
                assert(head.drop_last().drop_last().drop_last() =~= Seq::<u8>::empty());
                assert(head.last() == data@[2]);
                assert(head.drop_last().last() == data@[1]);
                assert(head.drop_last().drop_last().last() == data@[0]);
                assert(be_value(head) == metadata_size);
            }
            if 3 + metadata_size > data.len() {
                self.status = ResourceStatus::Corrupt;
                return Err(RnsError::ResourceMsg("metadata length exceeds segment"));
            }
            self.metadata = Some(bytes::slice_to_vec(&data, 3, 3 + metadata_size));
            let rest: Vec<u8> = bytes::slice_to_vec(&data, 3 + metadata_size, data.len());
            assert(rest@ =~= data@.skip(3 + metadata_size as int));
            self.assembled = Some(data);
            return Ok(rest);
        }
        self.assembled = Some(bytes::to_vec(&data));
        Ok(data)
    }

    /// Assembles the data of this segment from what the link made of the sealed stream: strips
    /// the random hash, decompresses, verifies the resource hash and takes the metadata off.
    pub fn assemble(&mut self, unsealed: Option<Vec<u8>>, max_decompressed_size: usize) -> (r:
        Result<Vec<u8>, RnsError>)
        requires
            old(self).wf(),
        ensures
            final(self).wf(),
            final(self)@ == after_assembly(
                old(self)@,
                content(unsealed),
                max_decompressed_size,
            ).0,
            match after_assembly(old(self)@, content(unsealed), max_decompressed_size).1 {
                Ok(rest) => r is Ok && r->Ok_0@ == rest,
                Err(err) => r is Err && r->Err_0 == err,
            },
    {
        let plain: Vec<u8> = if self.encrypted {
            match unsealed {
                Some(plain) => plain,
                None => return Err(RnsError::ResourceMsg("resource decryption failed")),
            }
        } else {
            self.sealed_stream()
        };
        match self.data_of(&plain, max_decompressed_size) {
            Ok(data) => self.accept_data(data),
            Err(err) => Err(err),
        }
    }

    /// Proves the receipt of `data` to the sender.
    pub fn prove(&mut self, link: &Link, data: &[u8], tx: &mut ResourceTx)
        ensures
            final(self)@ == (IncomingView { status: ResourceStatus::Complete, ..old(self)@ }),
            final(tx)@ == old(tx)@.push(
                raw_packet(
                    PacketType::Proof,
                    PacketContext::ResourceProof,
                    proof_payload(old(self).hash@, data@),
                ),
            ),
    {
        let proof_hash: crate::hash::Hash = crate::hash::Hash::new_from_parts(
            data,
            self.hash.as_slice(),
        );
        let mut payload: Vec<u8> = bytes::to_vec(self.hash.as_slice());
        bytes::append(&mut payload, proof_hash.as_slice());
        match link.raw_packet(&payload, PacketType::Proof, PacketContext::ResourceProof) {
            Ok(packet) => {
                self.status = ResourceStatus::Complete;
                tx.push(packet);
            },
            Err(_) => {
                assert(false);
            },
        }
    }

    /// Turns the transfer down.
    pub fn reject_packet(&self, link: &Link, tx: &mut ResourceTx)
        ensures
            final(tx)@ == old(tx)@.push(
                raw_packet(
                    PacketType::Data,
                    PacketContext::ResourceReceiverCancel,
                    self.hash@,
                ),
            ),
    {
        match link.raw_packet(
            self.hash.as_slice(),
            PacketType::Data,
            PacketContext::ResourceReceiverCancel,
        ) {
            Ok(packet) => tx.push(packet),
            Err(_) => {
                assert(false);
            },
        }
    }

    /// Cancels the transfer.
    pub fn cancel_packet(&self, link: &Link, tx: &mut ResourceTx)
        ensures
            final(tx)@ == old(tx)@.push(
                raw_packet(
                    PacketType::Data,
                    PacketContext::ResourceInitiatorCancel,
                    self.hash@,
                ),
            ),
    {
        match link.raw_packet(
            self.hash.as_slice(),
            PacketType::Data,
            PacketContext::ResourceInitiatorCancel,
        ) {
            Ok(packet) => tx.push(packet),
            Err(_) => {
                assert(false);
            },
        }
    }

    /// Reconstructs the advertisement of this resource.
    pub fn advertisement_of(&self) -> (r: ResourceAdvertisement)
        requires
            self.wf(),
        ensures
            r@ == receiver_advertisement(self@),
    {
        let flags: u8 = make_flags(
            self.encrypted,
            self.compressed,
            self.split,
            self.has_metadata,
            self.request_id.is_some(),
            self.is_response,
        );
        let entries: usize = if self.hashmap.len() < HASHMAP_MAX_LEN {
            self.hashmap.len()
        } else {
            HASHMAP_MAX_LEN
        };
        let mut hashmap: Vec<u8> = Vec::new();
        let mut i: usize = 0;
        let ghost map = self.hashmap@;
        assert(map.take(0) =~= Seq::<Option<[u8; 4]>>::empty());
        while i < entries
            invariant
                i <= entries <= map.len(),
                map == self.hashmap@,
                hashmap@ == known_hashes(map.take(i as int)),
            decreases entries - i,
        {
            if let Some(entry) = &self.hashmap[i] {
                bytes::append(&mut hashmap, entry);
            }
            i += 1;
            assert(map.take(i as int).drop_last() =~= map.take(i - 1));
            assert(hashmap@ =~= known_hashes(map.take(i as int)));
        }
        ResourceAdvertisement {
            transfer_size: self.size,
            data_size: self.total_size,
            parts: self.total_parts,
            hash: self.hash,
            random_hash: self.random_hash,
            original_hash: self.original_hash,
            segment_index: self.segment_index,
            total_segments: self.total_segments,
            request_id: self.request_id,
            flags,
            hashmap,
        }
    }

    /// The packets that turn down an advertisement before there is a receiver for it.
    pub fn reject_packet_for(adv: &ResourceAdvertisement, link: &Link) -> (tx: ResourceTx)
        ensures
            tx@ == seq![
                raw_packet(
                    PacketType::Data,
                    PacketContext::ResourceReceiverCancel,
                    adv.hash@,
                ),
            ],
    {
        let mut tx: ResourceTx = ResourceTx::default();
        match link.raw_packet(
            adv.hash.as_slice(),
            PacketType::Data,
            PacketContext::ResourceReceiverCancel,
        ) {
            Ok(packet) => tx.push(packet),
            Err(_) => {
                assert(false);
            },
        }
        assert(tx@ =~= seq![
            raw_packet(PacketType::Data, PacketContext::ResourceReceiverCancel, adv.hash@),
        ]);
        tx
    }

    /// Updates the rate at which data is expected.
    fn update_eifr(&mut self, link: &Link) -> (rate: Rate)
        requires
            old(self).wf(),
        ensures
            final(self).wf(),
            rate == expected_rate(old(self)@, *link),
            rate.nanos > 0,
            final(self)@ == (IncomingView { eifr: Some(rate), ..old(self)@ }),
    {
        let rate: Rate = if self.req_data_rtt_rate.bytes != 0 {
            self.req_data_rtt_rate
        } else if let Some(previous) = self.previous_eifr {
            previous
        } else {
            let rtt: u64 = match self.rtt {
                Some(rtt) => rtt,
                None => link.rtt,
            };
            Rate {
                bytes: link.establishment_cost,
                nanos: if rtt < 100_000 {
                    100_000
                } else {
                    rtt
                },
            }
        };
        self.eifr = Some(rate);
        rate
    }

    /// How many bits' time to wait for an answer.
    fn bits_awaited(&self) -> (r: u128)
        requires
            self.wf(),
        ensures
            r == awaited_bits(self@),
    {
        let factor: u128 = self.part_timeout_factor as u128;
        let parts: u128 = self.outstanding_parts as u128;
        let sdu: u128 = self.sdu as u128;
        proof {
            assert(0 <= factor * parts <= 4 * 3145725) by (nonlinear_arith)
                requires
                    0 <= factor <= 4,
                    0 <= parts <= 3145725,
            ;
            assert(0 <= (factor * parts) * sdu <= 4 * 3145725 * 0xffff_ffff_ffff_ffff)
                by (nonlinear_arith)
                requires
                    0 <= factor * parts <= 4 * 3145725,
                    0 <= sdu <= 0xffff_ffff_ffff_ffff,
            ;
            assert(0 <= (factor * 3) * sdu <= 4 * 3 * 0xffff_ffff_ffff_ffff) by (nonlinear_arith)
                requires
                    0 <= factor <= 4,
                    0 <= sdu <= 0xffff_ffff_ffff_ffff,
            ;
        }
        if self.req_resp_rtt_rate.bytes != 0 {
            let for_parts: u128 = factor * parts * sdu * 8;
            if self.waiting_for_hmu || self.outstanding_parts == 0 {
                for_parts + sdu * 28
            } else {
                for_parts
            }
        } else {
            factor * 3 * sdu
        }
    }

    /// Whether the answer to the last request is overdue at the given rate.
    fn is_overdue(&self, rate: Rate, now: u64) -> (r: bool)
        requires
            self.wf(),
            rate.nanos > 0,
        ensures
            r == overdue(self@, rate, now),
    {
        let grace: u128 = self.last_activity as u128 + RETRY_GRACE_TIME as u128 + (
        self.max_retries - self.retries_left) as u128 * 500_000_000;
        if now as u128 <= grace {
            return false;
        }
        let (speed, per) = bits_per_second(rate);
        assert(grace == grace_end(self@));
        arith::product_exceeds(
            now as u128 - grace,
            speed,
            self.bits_awaited(),
            per,
        )
    }

    /// Shrinks the window after a timeout.
    fn shrink_window(&mut self)
        requires
            old(self).wf(),
        ensures
            final(self).wf(),
            final(self)@ == shrunk_window(old(self)@),
    {
        if self.window > self.window_min {
            self.window = self.window - 1;
            if self.window_max > self.window_min {
                self.window_max = self.window_max - 1;
                if self.window_max.saturating_sub(self.window) > self.window_flexibility - 1 {
                    self.window_max = self.window_max - 1;
                }
            }
        }
    }

    /// Watchdog of the receiver: asks again with a smaller window, or gives up. Returns whether
    /// the transfer failed.
    pub fn check(&mut self, link: &Link, now: u64, tx: &mut ResourceTx) -> (r: bool)
        requires
            old(self).wf(),
        ensures
            final(self).wf(),
            final(self)@ == after_receiver_check(old(self)@, *link, now).0,
            final(tx)@ == old(tx)@ + after_receiver_check(old(self)@, *link, now).1,
            r == after_receiver_check(old(self)@, *link, now).2,
    {
        assert(tx@ =~= old(tx)@ + Seq::<LinkPacketView>::empty());
        if self.status != ResourceStatus::Transferring {
            return false;
        }
        let rate: Rate = self.update_eifr(link);
        if self.is_overdue(rate, now) {
            if self.retries_left > 0 {
                self.shrink_window();
                self.retries_left = self.retries_left - 1;
                self.waiting_for_hmu = false;
                self.request_next(link, now, tx);
            } else {
                self.status = ResourceStatus::Failed;
                return true;
            }
        }
        false
    }

    /// Transfer progress, weighted over the segments.
    pub fn progress(&self) -> (r: Progress)
        requires
            self.wf(),
        ensures
            r == receiver_progress(self@),
    {
        if self.status == ResourceStatus::Complete && self.segment_index == self.total_segments {
            return Progress { done: 1, total: 1 };
        }
        if !self.split {
            proof {
                count_present_bound(self@.parts);
            }
            return Progress { done: self.received_count as u128, total: self.total_parts as u128 };
        }
        let (done, total) = weighted_fraction(
            self.received_count,
            self.total_parts,
            self.segment_index,
            self.total_segments,
            self.sdu,
        );
        if arith::product_exceeds(done, 1000, total, 999) {
            Progress { done: 999, total: 1000 }
        } else {
            Progress { done, total }
        }
    }
}

} // verus!
