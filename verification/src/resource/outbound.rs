//! Outbound (sender) side of a resource transfer.

use vstd::prelude::*;

use crate::bytes;
use crate::compress::{bz2_compressed, bz2_decompressed, kept_compression, maybe_compress};
use crate::error::RnsError;
use crate::hash::{sha256_digest, AddressHash};
use crate::link::{raw_packet, sealed_packet, Link, LinkId, LinkPacket, LinkPacketView};
use crate::msgpack;
use crate::packet::{PacketContext, PacketType, PACKET_MDU};
use crate::resource::advertisement::{
    packed, AdvertisementView, ResourceAdvertisement, COLLISION_GUARD_SIZE, FLAG_COMPRESSED,
    FLAG_ENCRYPTED, FLAG_HAS_METADATA, FLAG_IS_REQUEST, FLAG_IS_RESPONSE, FLAG_SPLIT,
    HASHMAP_MAX_LEN,
};
use crate::resource::segment::{
    chunk, chunk_in_bounds, chunks, metadata_blob, segment_bytes, segment_count, segment_end,
    segment_in_bounds, segment_start, some_part,
};
use crate::resource::{
    map_hash, part_count, part_map_hash, parts_of, same_map_hash, Progress, ResourceOptions,
    ResourceStatus, ResourceTx, AUTO_COMPRESS_MAX_SIZE, HASHMAP_IS_EXHAUSTED, MAX_ADV_RETRIES,
    MAX_EFFICIENT_SIZE, MAX_RETRIES, METADATA_MAX_SIZE, PROCESSING_GRACE, PROOF_TIMEOUT_FACTOR,
    RESPONSE_MAX_GRACE_TIME, SDU, SENDER_GRACE_TIME, TOTAL_RETRY_DELAY, TRAFFIC_TIMEOUT_FACTOR,
    WINDOW_MAX,
};

verus! {

/// The part size on a link: what its transfer unit allows, or the default when that is unknown.
pub open spec fn part_size(link: Link) -> usize {
    if link.mtu > 0 {
        link.sdu
    } else {
        SDU
    }
}

/// The part size on a link.
pub fn part_size_of(link: &Link) -> (r: usize)
    ensures
        r == part_size(*link),
{
    if link.mtu > 0 {
        link.sdu
    } else {
        SDU
    }
}

/// Map hashes one behind the other.
pub open spec fn flat(hashes: Seq<[u8; 4]>) -> Seq<u8>
    decreases hashes.len(),
{
    if hashes.len() == 0 {
        Seq::empty()
    } else {
        flat(hashes.drop_last()) + hashes.last()@
    }
}

/// Map hashes take four bytes each.
pub proof fn flat_len(hashes: Seq<[u8; 4]>)
    ensures
        flat(hashes).len() == 4 * hashes.len(),
    decreases hashes.len(),
{
    if hashes.len() > 0 {
        flat_len(hashes.drop_last());
    }
}

/// Appends the map hashes from `from` up to `to`.
pub fn append_hashes(out: &mut Vec<u8>, hashes: &Vec<[u8; 4]>, from: usize, to: usize)
    requires
        from <= to <= hashes@.len(),
    ensures
        final(out)@ == old(out)@ + flat(hashes@.subrange(from as int, to as int)),
{
    let mut i: usize = from;
    assert(hashes@.subrange(from as int, from as int) =~= Seq::<[u8; 4]>::empty());
    assert(out@ + Seq::<u8>::empty() =~= out@);
    while i < to
        invariant
            from <= i <= to <= hashes@.len(),
            out@ == old(out)@ + flat(hashes@.subrange(from as int, i as int)),
        decreases to - i,
    {
        bytes::append(out, &hashes[i]);
        i += 1;
        proof {
            let s = hashes@.subrange(from as int, i as int);
            assert(s.drop_last() =~= hashes@.subrange(from as int, i - 1));
            assert(out@ =~= old(out)@ + flat(s));
        }
    }
}

/// How many entries are set.
pub open spec fn count_set(flags: Seq<bool>) -> nat
    decreases flags.len(),
{
    if flags.len() == 0 {
        0
    } else {
        count_set(flags.drop_last()) + (if flags.last() {
            1nat
        } else {
            0nat
        })
    }
}

/// No more entries are set than there are.
pub proof fn count_set_bound(flags: Seq<bool>)
    ensures
        count_set(flags) <= flags.len(),
        count_set(flags) == flags.len() <==> (forall|i: int| 0 <= i < flags.len() ==> flags[i]),
    decreases flags.len(),
{
    if flags.len() > 0 {
        count_set_bound(flags.drop_last());
        assert(forall|i: int|
            0 <= i < flags.len() - 1 ==> flags[i] == flags.drop_last()[i]);
        if count_set(flags) == flags.len() {
            assert forall|i: int| 0 <= i < flags.len() implies flags[i] by {
                if i < flags.len() - 1 {
                    assert(flags.drop_last()[i]);
                }
            }
        }
        if forall|i: int| 0 <= i < flags.len() ==> flags[i] {
            assert forall|i: int| 0 <= i < flags.drop_last().len() implies flags.drop_last()[i] by {
                assert(flags[i]);
            }
        }
    }
}

/// Setting an entry that was not set adds one to the count.
proof fn count_set_update(flags: Seq<bool>, i: int)
    requires
        0 <= i < flags.len(),
        !flags[i],
    ensures
        count_set(flags.update(i, true)) == count_set(flags) + 1,
    decreases flags.len(),
{
    let after = flags.update(i, true);
    if i == flags.len() - 1 {
        assert(after.drop_last() =~= flags.drop_last());
    } else {
        count_set_update(flags.drop_last(), i);
        assert(after.drop_last() =~= flags.drop_last().update(i, true));
    }
}

/// The flag bits of an advertisement.
pub open spec fn flag_bits(
    encrypted: bool,
    compressed: bool,
    split: bool,
    has_metadata: bool,
    request: bool,
    is_response: bool,
) -> u8 {
    (if encrypted {
        FLAG_ENCRYPTED
    } else {
        0
    }) | (if compressed {
        FLAG_COMPRESSED
    } else {
        0
    }) | (if split {
        FLAG_SPLIT
    } else {
        0
    }) | (if has_metadata {
        FLAG_HAS_METADATA
    } else {
        0
    }) | (if request {
        if is_response {
            FLAG_IS_RESPONSE
        } else {
            FLAG_IS_REQUEST
        }
    } else {
        0
    })
}

/// The flag bits of an advertisement.
pub fn make_flags(
    encrypted: bool,
    compressed: bool,
    split: bool,
    has_metadata: bool,
    request: bool,
    is_response: bool,
) -> (r: u8)
    ensures
        r == flag_bits(encrypted, compressed, split, has_metadata, request, is_response),
{
    (if encrypted {
        FLAG_ENCRYPTED
    } else {
        0
    }) | (if compressed {
        FLAG_COMPRESSED
    } else {
        0
    }) | (if split {
        FLAG_SPLIT
    } else {
        0
    }) | (if has_metadata {
        FLAG_HAS_METADATA
    } else {
        0
    }) | (if request {
        if is_response {
            FLAG_IS_RESPONSE
        } else {
            FLAG_IS_REQUEST
        }
    } else {
        0
    })
}

/// Each flag bit can be read back on its own.
pub proof fn flag_bits_independent(
    encrypted: bool,
    compressed: bool,
    split: bool,
    has_metadata: bool,
    request: bool,
    is_response: bool,
)
    ensures
        ({
            let flags = flag_bits(
                encrypted,
                compressed,
                split,
                has_metadata,
                request,
                is_response,
            );
            &&& (flags & FLAG_ENCRYPTED != 0) == encrypted
            &&& (flags & FLAG_COMPRESSED != 0) == compressed
            &&& (flags & FLAG_SPLIT != 0) == split
            &&& (flags & FLAG_HAS_METADATA != 0) == has_metadata
            &&& (flags & FLAG_IS_RESPONSE != 0) == (request && is_response)
            &&& (flags & FLAG_IS_REQUEST != 0) == (request && !is_response)
        }),
{
    let a: u8 = if encrypted { 1 } else { 0 };
    let b: u8 = if compressed { 2 } else { 0 };
    let c: u8 = if split { 4 } else { 0 };
    let d: u8 = if has_metadata { 0x20 } else { 0 };
    let e: u8 = if request { if is_response { 0x10 } else { 8 } } else { 0 };
    assert(((a | b | c | d | e) & 1 != 0) == (a == 1) && ((a | b | c | d | e) & 2 != 0) == (b == 2)
        && ((a | b | c | d | e) & 4 != 0) == (c == 4) && ((a | b | c | d | e) & 0x20 != 0) == (d
        == 0x20) && ((a | b | c | d | e) & 0x10 != 0) == (e == 0x10) && ((a | b | c | d | e) & 8
        != 0) == (e == 8)) by (bit_vector)
        requires
            a == 0 || a == 1,
            b == 0 || b == 2,
            c == 0 || c == 4,
            d == 0 || d == 0x20,
            e == 0 || e == 8 || e == 0x10,
    ;
}

/// A segment that is ready to be sealed: its plaintext is fixed but for the random hash.
#[derive(Debug)]
pub struct PendingSegment {
    /// The complete stream, metadata first.
    pub stream: Vec<u8>,
    /// Which segment of the stream this is, counted from one.
    pub segment_index: usize,
    pub total_segments: usize,
    /// Hash of the first segment, once there is one.
    pub original_hash: Option<crate::hash::Hash>,
    /// The segment's bytes, compressed where that helped.
    pub prepared: Vec<u8>,
    pub compressed: bool,
    /// Salt of this sealing attempt.
    pub random_hash: [u8; 4],
    pub auto_compress: bool,
    pub has_metadata: bool,
    pub metadata_size: usize,
    pub timeout: Option<u64>,
    pub request_id: Option<AddressHash>,
    pub is_response: bool,
}

impl PendingSegment {
    /// The uncompressed bytes of the segment.
    pub open spec fn segment(&self) -> Seq<u8> {
        segment_bytes(self.stream@, self.segment_index as nat)
    }

    /// The segment exists, and what is prepared can be turned back into its bytes.
    pub open spec fn wf(&self) -> bool {
        &&& self.total_segments == segment_count(self.stream@.len())
        &&& 1 <= self.segment_index <= self.total_segments
        &&& (self.prepared@, self.compressed) == kept_compression(
            self.segment(),
            self.auto_compress,
            AUTO_COMPRESS_MAX_SIZE as nat,
            bz2_compressed(self.segment()),
        )
        &&& self.compressed ==> forall|limit: nat|
            self.segment().len() <= limit ==> #[trigger] bz2_decompressed(self.prepared@, limit)
                == Some(self.segment())
    }

    /// The bytes to seal: the random hash and the prepared bytes.
    pub open spec fn plain(&self) -> Seq<u8> {
        self.random_hash@ + self.prepared@
    }

    /// The bytes to seal: the random hash and the prepared bytes.
    pub fn plaintext(&self) -> (r: Vec<u8>)
        ensures
            r@ == self.plain(),
    {
        let mut r: Vec<u8> = bytes::to_vec(&self.random_hash);
        bytes::append(&mut r, &self.prepared);
        r
    }

    /// Equal but for the random hash.
    pub open spec fn same_but_salt(&self, other: &PendingSegment) -> bool {
        *self == (PendingSegment { random_hash: self.random_hash, ..*other })
    }

    /// Draws a new random hash, whichever chance gives, and salts the segment with it.
    fn draw(self) -> (r: Self)
        ensures
            r.same_but_salt(&self),
            self.wf() ==> r.wf(),
    {
        let random: crate::hash::Hash = crate::hash::Hash::new_from_rand();
        self.salted(&random)
    }

    /// The same segment, with the first four bytes of `random` for its random hash.
    pub fn salted(self, random: &crate::hash::Hash) -> (r: Self)
        ensures
            r.same_but_salt(&self),
            r.random_hash@ == random@.subrange(0, 4),
            self.wf() ==> r.wf(),
    {
        let mut r = self;
        r.random_hash = [random.0[0], random.0[1], random.0[2], random.0[3]];
        assert(r.random_hash@ =~= random@.subrange(0, 4));
        r
    }
}

/// The outcome of sealing a segment.
#[derive(Debug)]
pub enum Sealing {
    /// The segment is ready to be advertised.
    Ready(OutgoingResource),
    /// Two nearby parts share a map hash: the segment has to be sealed anew, with the new random
    /// hash that has been drawn.
    Collision(PendingSegment),
}

/// A prepared resource awaiting advertisement, or an active sender.
#[derive(Debug)]
pub struct OutgoingResource {
    pub link_id: LinkId,
    pub status: ResourceStatus,
    pub hash: crate::hash::Hash,
    pub truncated_hash: AddressHash,
    pub expected_proof: crate::hash::Hash,
    pub original_hash: crate::hash::Hash,
    pub random_hash: [u8; 4],
    /// Length of the sealed stream.
    pub size: usize,
    /// Uncompressed size of the whole stream.
    pub total_size: usize,
    pub compressed: bool,
    pub encrypted: bool,
    pub split: bool,
    pub has_metadata: bool,
    pub metadata_size: usize,
    pub segment_index: usize,
    pub total_segments: usize,
    pub request_id: Option<AddressHash>,
    pub is_response: bool,
    pub sdu: usize,
    /// The parts of the sealed stream.
    pub parts: Vec<Vec<u8>>,
    pub part_hashes: Vec<[u8; 4]>,
    pub part_sent: Vec<bool>,
    pub sent_parts: usize,
    pub receiver_min_consecutive_height: usize,
    pub rtt: Option<u64>,
    pub adv_sent: Option<u64>,
    pub last_activity: u64,
    pub last_part_sent: u64,
    pub retries_left: usize,
    pub max_retries: usize,
    pub timeout: u128,
    pub timeout_factor: u64,
    pub sender_grace_time: u64,
    /// The complete stream, kept for the segments that follow.
    pub original_stream: Vec<u8>,
    pub auto_compress: bool,
    /// The advertisement timeout that was asked for.
    pub requested_timeout: Option<u64>,
}

/// The mathematical counterpart of [`OutgoingResource`].
#[verifier::ext_equal]
pub struct OutgoingView {
    pub link_id: LinkId,
    pub status: ResourceStatus,
    pub hash: crate::hash::Hash,
    pub truncated_hash: AddressHash,
    pub expected_proof: crate::hash::Hash,
    pub original_hash: crate::hash::Hash,
    pub random_hash: [u8; 4],
    pub size: usize,
    pub total_size: usize,
    pub compressed: bool,
    pub encrypted: bool,
    pub split: bool,
    pub has_metadata: bool,
    pub metadata_size: usize,
    pub segment_index: usize,
    pub total_segments: usize,
    pub request_id: Option<AddressHash>,
    pub is_response: bool,
    pub sdu: usize,
    pub parts: Seq<Seq<u8>>,
    pub part_hashes: Seq<[u8; 4]>,
    pub part_sent: Seq<bool>,
    pub sent_parts: usize,
    pub receiver_min_consecutive_height: usize,
    pub rtt: Option<u64>,
    pub adv_sent: Option<u64>,
    pub last_activity: u64,
    pub last_part_sent: u64,
    pub retries_left: usize,
    pub max_retries: usize,
    pub timeout: u128,
    pub timeout_factor: u64,
    pub sender_grace_time: u64,
    pub original_stream: Seq<u8>,
    pub auto_compress: bool,
    pub requested_timeout: Option<u64>,
}

/// Owned byte strings as mathematical ones.
pub open spec fn contents(parts: Seq<Vec<u8>>) -> Seq<Seq<u8>> {
    parts.map_values(|p: Vec<u8>| p@)
}

impl View for OutgoingResource {
    type V = OutgoingView;

    open spec fn view(&self) -> OutgoingView {
        OutgoingView {
            link_id: self.link_id,
            status: self.status,
            hash: self.hash,
            truncated_hash: self.truncated_hash,
            expected_proof: self.expected_proof,
            original_hash: self.original_hash,
            random_hash: self.random_hash,
            size: self.size,
            total_size: self.total_size,
            compressed: self.compressed,
            encrypted: self.encrypted,
            split: self.split,
            has_metadata: self.has_metadata,
            metadata_size: self.metadata_size,
            segment_index: self.segment_index,
            total_segments: self.total_segments,
            request_id: self.request_id,
            is_response: self.is_response,
            sdu: self.sdu,
            parts: contents(self.parts@),
            part_hashes: self.part_hashes@,
            part_sent: self.part_sent@,
            sent_parts: self.sent_parts,
            receiver_min_consecutive_height: self.receiver_min_consecutive_height,
            rtt: self.rtt,
            adv_sent: self.adv_sent,
            last_activity: self.last_activity,
            last_part_sent: self.last_part_sent,
            retries_left: self.retries_left,
            max_retries: self.max_retries,
            timeout: self.timeout,
            timeout_factor: self.timeout_factor,
            sender_grace_time: self.sender_grace_time,
            original_stream: self.original_stream@,
            auto_compress: self.auto_compress,
            requested_timeout: self.requested_timeout,
        }
    }
}

/// What every operation on a sender keeps true.
pub open spec fn sender_wf(v: OutgoingView) -> bool {
    &&& v.parts.len() >= 1
    &&& v.part_hashes.len() == v.parts.len()
    &&& v.part_sent.len() == v.parts.len()
    &&& v.sent_parts == count_set(v.part_sent)
    &&& v.receiver_min_consecutive_height <= v.parts.len()
    &&& forall|i: int| 0 <= i < v.parts.len() ==> (#[trigger] v.parts[i]).len() <= PACKET_MDU
    &&& v.sdu > 0
    &&& v.total_segments == segment_count(v.original_stream.len())
    &&& 1 <= v.segment_index <= v.total_segments
    &&& v.split == (v.total_segments > 1)
    &&& v.max_retries == MAX_RETRIES
    &&& v.timeout < 0x10_0000_0000_0000_0000
    &&& v.timeout_factor <= TRAFFIC_TIMEOUT_FACTOR
}

/// The map hashes of a sealed stream.
pub open spec fn map_hashes(sealed: Seq<u8>, sdu: nat, random_hash: Seq<u8>) -> Seq<Seq<u8>> {
    Seq::new(
        part_count(sealed.len(), sdu),
        |i: int| part_map_hash(chunk(sealed, sdu, i), random_hash),
    )
}

/// Two parts within the searchable window share a map hash.
pub open spec fn collides(hashes: Seq<Seq<u8>>) -> bool {
    exists|i: int, j: int|
        0 <= i < j < hashes.len() && j - i <= COLLISION_GUARD_SIZE && #[trigger] hashes[i]
            == #[trigger] hashes[j]
}

/// The timeout of an advertisement: as asked for, or six round trips and the response grace time
/// with an eighth on top.
pub open spec fn advertisement_timeout(requested: Option<u64>, rtt: u64) -> int {
    match requested {
        Some(timeout) => timeout as int,
        None => rtt * TRAFFIC_TIMEOUT_FACTOR + RESPONSE_MAX_GRACE_TIME * 9 / 8,
    }
}

/// The sender that a sealed segment makes.
pub open spec fn sealed_sender(
    p: PendingSegment,
    sealed: Seq<u8>,
    link: Link,
    now: u64,
    v: OutgoingView,
) -> bool {
    &&& v.link_id == link.id
    &&& v.status == ResourceStatus::Idle
    &&& v.hash@ == sha256_digest(p.segment() + p.random_hash@)
    &&& v.truncated_hash@ == v.hash@.subrange(0, 16)
    &&& v.expected_proof@ == sha256_digest(p.segment() + v.hash@)
    &&& v.original_hash == match p.original_hash {
        Some(hash) => hash,
        None => v.hash,
    }
    &&& v.random_hash == p.random_hash
    &&& v.size == sealed.len()
    &&& v.total_size == p.stream@.len()
    &&& v.compressed == p.compressed
    &&& v.encrypted
    &&& v.has_metadata == p.has_metadata
    &&& v.metadata_size == p.metadata_size
    &&& v.segment_index == p.segment_index
    &&& v.total_segments == p.total_segments
    &&& v.request_id == p.request_id
    &&& v.is_response == p.is_response
    &&& v.sdu == part_size(link)
    &&& v.parts == chunks(sealed, part_size(link) as nat)
    &&& v.part_hashes.map_values(|h: [u8; 4]| h@) == map_hashes(
        sealed,
        part_size(link) as nat,
        p.random_hash@,
    )
    &&& v.sent_parts == 0
    &&& v.receiver_min_consecutive_height == 0
    &&& v.rtt is None
    &&& v.adv_sent is None
    &&& v.last_activity == now
    &&& v.last_part_sent == 0
    &&& v.retries_left == MAX_ADV_RETRIES
    &&& v.timeout == advertisement_timeout(p.timeout, link.rtt)
    &&& v.timeout_factor == TRAFFIC_TIMEOUT_FACTOR
    &&& v.sender_grace_time == SENDER_GRACE_TIME
    &&& v.original_stream == p.stream@
    &&& v.auto_compress == p.auto_compress
    &&& v.requested_timeout == p.timeout
}

/// The advertisement of a sender.
pub open spec fn advertisement_view(v: OutgoingView) -> AdvertisementView {
    AdvertisementView {
        transfer_size: v.size as nat,
        data_size: v.total_size as nat,
        parts: v.parts.len(),
        hash: v.hash@,
        random_hash: v.random_hash@,
        original_hash: v.original_hash@,
        segment_index: v.segment_index as nat,
        total_segments: v.total_segments as nat,
        request_id: crate::resource::advertisement::address_bytes(v.request_id),
        flags: flag_bits(
            v.encrypted,
            v.compressed,
            v.split,
            v.has_metadata,
            v.request_id is Some,
            v.is_response,
        ),
        hashmap: flat(v.part_hashes.take(first_hashes(v.parts.len()))),
    }
}

/// How many map hashes an advertisement of `n` parts carries.
pub open spec fn first_hashes(n: nat) -> int {
    if n < HASHMAP_MAX_LEN {
        n as int
    } else {
        HASHMAP_MAX_LEN as int
    }
}

/// A sender that has just advertised.
pub open spec fn advertised(v: OutgoingView, now: u64) -> OutgoingView {
    OutgoingView {
        status: ResourceStatus::Advertised,
        adv_sent: Some(now),
        last_activity: now,
        rtt: None,
        retries_left: MAX_ADV_RETRIES,
        ..v
    }
}

/// The packet that advertises a resource.
pub open spec fn advertisement_packet(v: OutgoingView) -> LinkPacketView {
    sealed_packet(PacketContext::ResourceAdvertisement, packed(advertisement_view(v)))
}

/// The metadata of a set of options.
pub open spec fn option_metadata(opts: ResourceOptions) -> Option<Seq<u8>> {
    match opts.metadata {
        Some(metadata) => Some(metadata@),
        None => None,
    }
}

/// Prepares one segment of a stream.
fn prepare_segment(
    stream: Vec<u8>,
    segment_index: usize,
    original_hash: Option<crate::hash::Hash>,
    auto_compress: bool,
    has_metadata: bool,
    metadata_size: usize,
    timeout: Option<u64>,
    request_id: Option<AddressHash>,
    is_response: bool,
) -> (r: PendingSegment)
    requires
        1 <= segment_index <= segment_count(stream@.len()),
    ensures
        r.wf(),
        r.stream@ == stream@,
        r.segment_index == segment_index,
        r.original_hash == original_hash,
        r.auto_compress == auto_compress,
        r.has_metadata == has_metadata,
        r.metadata_size == metadata_size,
        r.timeout == timeout,
        r.request_id == request_id,
        r.is_response == is_response,
{
    let total_size: usize = stream.len();
    let total_segments: usize = if total_size <= MAX_EFFICIENT_SIZE {
        1
    } else {
        parts_of(total_size, MAX_EFFICIENT_SIZE)
    };
    proof {
        segment_in_bounds(total_size as nat, segment_index as nat);
    }
    let start: usize = (segment_index - 1) * MAX_EFFICIENT_SIZE;
    let end: usize = if total_size - start <= MAX_EFFICIENT_SIZE {
        total_size
    } else {
        start + MAX_EFFICIENT_SIZE
    };
    let segment: Vec<u8> = bytes::slice_to_vec(&stream, start, end);
    assert(segment@ == segment_bytes(stream@, segment_index as nat));
    let (prepared, compressed) = maybe_compress(&segment, auto_compress, AUTO_COMPRESS_MAX_SIZE);
    let pending: PendingSegment = PendingSegment {
        stream,
        segment_index,
        total_segments,
        original_hash,
        prepared,
        compressed,
        random_hash: [0; 4],
        auto_compress,
        has_metadata,
        metadata_size,
        timeout,
        request_id,
        is_response,
    };
    pending.draw()
}

impl OutgoingResource {
    /// What every operation on a sender keeps true.
    pub open spec fn wf(&self) -> bool {
        sender_wf(self@)
    }

    /// Prepares the first segment of a resource for `data`, with the metadata of the options in
    /// front. The link seals the segment's plaintext; [`OutgoingResource::new_segment`] makes a
    /// sender of it.
    pub fn new(data: Vec<u8>, opts: ResourceOptions) -> (r: Result<PendingSegment, RnsError>)
        ensures
            r is Err <==> option_metadata(opts) is Some && option_metadata(opts)->0.len()
                > METADATA_MAX_SIZE,
            r is Err ==> r->Err_0 == RnsError::ResourceMsg("resource metadata size exceeded"),
            r is Ok ==> ({
                let p = r->Ok_0;
                &&& p.wf()
                &&& p.stream@ == metadata_blob(option_metadata(opts)) + data@
                &&& p.segment_index == 1
                &&& p.original_hash is None
                &&& p.auto_compress == opts.auto_compress
                &&& p.has_metadata == opts.metadata is Some
                &&& p.metadata_size == metadata_blob(option_metadata(opts)).len()
                &&& p.timeout == opts.timeout
                &&& p.request_id == opts.request_id
                &&& p.is_response == opts.is_response
            }),
    {
        let mut stream: Vec<u8> = Vec::new();
        let mut has_metadata: bool = false;
        if let Some(metadata) = &opts.metadata {
            if metadata.len() > METADATA_MAX_SIZE {
                return Err(RnsError::ResourceMsg("resource metadata size exceeded"));
            }
            let len: usize = metadata.len();
            stream.push((len / 65536) as u8);
            stream.push((len / 256 % 256) as u8);
            stream.push((len % 256) as u8);
            proof {
                reveal_with_fuel(bytes::be_bytes, 4);
                assert(len / 256 / 256 == len / 65536);
                assert(stream@ =~= bytes::be_bytes(len as nat, 3));
            }
            bytes::append(&mut stream, metadata);
            has_metadata = true;
        }
        assert(stream@ =~= metadata_blob(option_metadata(opts)));
        let metadata_size: usize = stream.len();
        bytes::append(&mut stream, &data);
        proof {
            if stream@.len() > MAX_EFFICIENT_SIZE {
                some_part(stream@.len(), MAX_EFFICIENT_SIZE as nat);
            }
        }
        Ok(
            prepare_segment(
                stream,
                1,
                None,
                opts.auto_compress,
                has_metadata,
                metadata_size,
                opts.timeout,
                opts.request_id,
                opts.is_response,
            ),
        )
    }

    /// Makes a sender of a sealed segment: cuts the sealed bytes into parts and hashes them.
    /// Where two parts that a receiver may ask for at once share a map hash, a new random hash is
    /// drawn and the segment has to be sealed again.
    pub fn new_segment(
        pending: PendingSegment,
        sealed: &[u8],
        link: &Link,
        now: u64,
    ) -> (r: Result<Sealing, RnsError>)
        requires
            pending.wf(),
            part_size(*link) > 0,
            sealed@.len() > 0,
        ensures
            r is Err <==> part_size(*link) > PACKET_MDU && sealed@.len() > PACKET_MDU,
            r is Err ==> r->Err_0 == RnsError::OutOfMemory,
            r is Ok ==> (r->Ok_0 is Collision <==> collides(
                map_hashes(sealed@, part_size(*link) as nat, pending.random_hash@),
            )),
            r matches Ok(Sealing::Collision(again)) ==> again.wf() && again.same_but_salt(
                &pending,
            ),
            r matches Ok(Sealing::Ready(sender)) ==> sender.wf() && sealed_sender(
                pending,
                sealed@,
                *link,
                now,
                sender@,
            ),
    {
        let sdu: usize = part_size_of(link);
        let size: usize = sealed.len();
        if sdu > PACKET_MDU && size > PACKET_MDU {
            return Err(RnsError::OutOfMemory);
        }
        let total_parts: usize = parts_of(size, sdu);
        let mut parts: Vec<Vec<u8>> = Vec::new();
        let mut part_hashes: Vec<[u8; 4]> = Vec::new();
        let mut part_sent: Vec<bool> = Vec::new();
        let ghost expected = map_hashes(sealed@, sdu as nat, pending.random_hash@);
        let mut i: usize = 0;
        let mut start: usize = 0;
        while i < total_parts
            invariant
                i <= total_parts,
                sdu > 0,
                size == sealed@.len(),
                sdu <= PACKET_MDU || size <= PACKET_MDU,
                total_parts == part_count(size as nat, sdu as nat),
                i < total_parts ==> start == i * sdu,
                parts@.len() == i,
                part_hashes@.len() == i,
                part_sent@.len() == i,
                pending.wf(),
                sdu == part_size(*link),
                !(part_size(*link) > PACKET_MDU && sealed@.len() > PACKET_MDU),
                expected == map_hashes(sealed@, sdu as nat, pending.random_hash@),
                forall|k: int| 0 <= k < i ==> (#[trigger] parts@[k])@ == chunk(
                    sealed@,
                    sdu as nat,
                    k,
                ),
                forall|k: int| 0 <= k < i ==> (#[trigger] parts@[k])@.len() <= PACKET_MDU,
                forall|k: int| 0 <= k < i ==> (#[trigger] part_hashes@[k])@ == expected[k],
                forall|k: int| 0 <= k < i ==> !(#[trigger] part_sent@[k]),
                count_set(part_sent@) == 0,
                forall|a: int, b: int|
                    0 <= a < b < i && b - a <= COLLISION_GUARD_SIZE ==> #[trigger] expected[a]
                        != #[trigger] expected[b],
            decreases total_parts - i,
        {
            proof {
                chunk_in_bounds(size as nat, sdu as nat, i as int);
            }
            let end: usize = if size - start <= sdu {
                size
            } else {
                start + sdu
            };
            let part: Vec<u8> = bytes::slice_to_vec(sealed, start, end);
            assert(part@ == chunk(sealed@, sdu as nat, i as int));
            let mh: [u8; 4] = map_hash(&part, &pending.random_hash);
            assert(mh@ == expected[i as int]);
            let guard_start: usize = if i > COLLISION_GUARD_SIZE {
                i - COLLISION_GUARD_SIZE
            } else {
                0
            };
            let mut k: usize = guard_start;
            while k < i
                invariant
                    guard_start <= k <= i,
                    i < total_parts,
                    i == part_hashes@.len(),
                    i - guard_start <= COLLISION_GUARD_SIZE,
                    expected.len() == total_parts,
                    total_parts == part_count(size as nat, sdu as nat),
                    size == sealed@.len(),
                    sdu == part_size(*link),
                    !(part_size(*link) > PACKET_MDU && sealed@.len() > PACKET_MDU),
                    pending.wf(),
                    expected == map_hashes(sealed@, sdu as nat, pending.random_hash@),
                    mh@ == expected[i as int],
                    forall|k: int| 0 <= k < i ==> (#[trigger] part_hashes@[k])@ == expected[k],
                    forall|a: int|
                        guard_start <= a < k ==> #[trigger] expected[a] != expected[i as int],
                decreases i - k,
            {
                if same_map_hash(&part_hashes[k], &mh) {
                    assert(collides(expected)) by {
                        assert(expected[k as int] == expected[i as int]);
                    }
                    return Ok(Sealing::Collision(pending.draw()));
                }
                assert(part_hashes@[k as int]@ != mh@) by {
                    if part_hashes@[k as int]@ == mh@ {
                        assert(part_hashes@[k as int] =~= mh);
                    }
                }
                k += 1;
            }
            let ghost flags_before = part_sent@;
            parts.push(part);
            part_hashes.push(mh);
            part_sent.push(false);
            assert(part_sent@.drop_last() =~= flags_before);
            i += 1;
            if i < total_parts {
                proof {
                    chunk_in_bounds(size as nat, sdu as nat, i as int);
                }
                start = start + sdu;
            }
        }
        assert(!collides(expected));
        let segment_start: usize;
        let segment_end: usize;
        proof {
            segment_in_bounds(pending.stream@.len(), pending.segment_index as nat);
            some_part(size as nat, sdu as nat);
        }
        let total_size: usize = pending.stream.len();
        segment_start = (pending.segment_index - 1) * MAX_EFFICIENT_SIZE;
        segment_end =
        if total_size - segment_start <= MAX_EFFICIENT_SIZE {
            total_size
        } else {
            segment_start + MAX_EFFICIENT_SIZE
        };
        let segment: &[u8] = &pending.stream.as_slice()[segment_start..segment_end];
        assert(segment@ == pending.segment());
        let hash: crate::hash::Hash = crate::hash::Hash::new_from_parts(
            segment,
            &pending.random_hash,
        );
        let expected_proof: crate::hash::Hash = crate::hash::Hash::new_from_parts(
            segment,
            hash.as_slice(),
        );
        let timeout: u128 = match pending.timeout {
            Some(timeout) => timeout as u128,
            None => link.rtt as u128 * TRAFFIC_TIMEOUT_FACTOR as u128 + (RESPONSE_MAX_GRACE_TIME
                as u128 * 9 / 8),
        };
        let sender: OutgoingResource = OutgoingResource {
            link_id: link.id,
            status: ResourceStatus::Idle,
            hash,
            truncated_hash: AddressHash::new_from_hash(&hash),
            expected_proof,
            original_hash: match pending.original_hash {
                Some(original) => original,
                None => hash,
            },
            random_hash: pending.random_hash,
            size,
            total_size,
            compressed: pending.compressed,
            encrypted: true,
            split: pending.total_segments > 1,
            has_metadata: pending.has_metadata,
            metadata_size: pending.metadata_size,
            segment_index: pending.segment_index,
            total_segments: pending.total_segments,
            request_id: pending.request_id,
            is_response: pending.is_response,
            sdu,
            parts,
            part_hashes,
            part_sent,
            sent_parts: 0,
            receiver_min_consecutive_height: 0,
            rtt: None,
            adv_sent: None,
            last_activity: now,
            last_part_sent: 0,
            retries_left: MAX_ADV_RETRIES,
            max_retries: MAX_RETRIES,
            timeout,
            timeout_factor: TRAFFIC_TIMEOUT_FACTOR,
            sender_grace_time: SENDER_GRACE_TIME,
            original_stream: pending.stream,
            auto_compress: pending.auto_compress,
            requested_timeout: pending.timeout,
        };
        proof {
            assert(sender@.parts =~= chunks(sealed@, sdu as nat));
            assert(sender@.part_hashes.map_values(|h: [u8; 4]| h@) =~= expected);
            assert(sender@.part_sent == part_sent@);
        }
        Ok(Sealing::Ready(sender))
    }

    /// Prepares the segment that follows this one, when there is one.
    pub fn prepare_next_segment(&self) -> (r: Option<PendingSegment>)
        requires
            self.wf(),
        ensures
            r is Some <==> self.segment_index < self.total_segments,
            r is Some ==> ({
                let p = r->0;
                &&& p.wf()
                &&& p.stream@ == self.original_stream@
                &&& p.segment_index == self.segment_index + 1
                &&& p.original_hash == Some(self.original_hash)
                &&& p.auto_compress == self.auto_compress
                &&& p.has_metadata == self.has_metadata
                &&& p.metadata_size == self.metadata_size
                &&& p.timeout == self.requested_timeout
                &&& p.request_id == self.request_id
                &&& p.is_response == self.is_response
            }),
    {
        if self.segment_index >= self.total_segments {
            return None;
        }
        Some(
            prepare_segment(
                bytes::to_vec(&self.original_stream),
                self.segment_index + 1,
                Some(self.original_hash),
                self.auto_compress,
                self.has_metadata,
                self.metadata_size,
                self.requested_timeout,
                self.request_id,
                self.is_response,
            ),
        )
    }

    /// Byte range of segment `segment_index` (counted from one) within a stream of `total_size`
    /// bytes.
    pub fn segment_range(total_size: usize, metadata_size: usize, segment_index: usize) -> (r:
        core::ops::Range<usize>)
        requires
            total_size > MAX_EFFICIENT_SIZE ==> 1 <= segment_index && segment_index
                * MAX_EFFICIENT_SIZE <= usize::MAX,
        ensures
            r.start == segment_start(total_size as nat, segment_index as nat),
            r.end == segment_end(total_size as nat, segment_index as nat),
    {
        if total_size <= MAX_EFFICIENT_SIZE {
            return 0..total_size;
        }
        proof {
            assert(segment_index * MAX_EFFICIENT_SIZE == (segment_index - 1) * MAX_EFFICIENT_SIZE
                + MAX_EFFICIENT_SIZE) by (nonlinear_arith);
            assert((segment_index - 1) * MAX_EFFICIENT_SIZE >= 0) by (nonlinear_arith)
                requires
                    segment_index >= 1,
            ;
        }
        let start: usize = (segment_index - 1) * MAX_EFFICIENT_SIZE;
        let end: usize = if segment_index * MAX_EFFICIENT_SIZE < total_size {
            segment_index * MAX_EFFICIENT_SIZE
        } else {
            total_size
        };
        start..end
    }

    /// The advertisement of this resource.
    pub fn advertisement(&self) -> (r: ResourceAdvertisement)
        requires
            self.wf(),
        ensures
            r@ == advertisement_view(self@),
            r.hashmap@.len() <= 4 * HASHMAP_MAX_LEN,
    {
        let flags: u8 = make_flags(
            self.encrypted,
            self.compressed,
            self.split,
            self.has_metadata,
            self.request_id.is_some(),
            self.is_response,
        );
        let entries: usize = if self.part_hashes.len() < HASHMAP_MAX_LEN {
            self.part_hashes.len()
        } else {
            HASHMAP_MAX_LEN
        };
        let mut hashmap: Vec<u8> = Vec::new();
        append_hashes(&mut hashmap, &self.part_hashes, 0, entries);
        proof {
            let head = self.part_hashes@.subrange(0, entries as int);
            flat_len(head);
            assert(head =~= self.part_hashes@.take(first_hashes(self.parts@.len())));
            assert(hashmap@ =~= flat(head));
        }
        ResourceAdvertisement {
            transfer_size: self.size,
            data_size: self.total_size,
            parts: self.parts.len(),
            hash: self.hash,
            random_hash: self.random_hash,
            original_hash: self.original_hash,
            segment_index: self.segment_index,
            total_segments: self.total_segments,
            request_id: self.request_id,
            flags,
            hashmap,
        }
    }
}

/// The `k`-th map hash of a request, where the map hashes begin at `from`.
pub open spec fn nth_hash(data: Seq<u8>, from: int, k: int) -> Seq<u8> {
    data.subrange(from + 4 * k, from + 4 * k + 4)
}

/// A request whose map hashes begin at `from` asks for the part with this map hash.
pub open spec fn asks_for(data: Seq<u8>, from: int, mh: Seq<u8>) -> bool {
    exists|k: int| 0 <= k && from + 4 * k + 4 <= data.len() && #[trigger] nth_hash(data, from, k)
        == mh
}

/// The request says that the receiver ran out of map hashes.
pub open spec fn wants_hashmap(data: Seq<u8>) -> bool {
    data.len() > 0 && data[0] == HASHMAP_IS_EXHAUSTED
}

/// Where the resource hash of a request begins: behind the flag byte, and behind the last known
/// map hash where the receiver ran out of them.
pub open spec fn request_hash_at(data: Seq<u8>) -> int {
    if wants_hashmap(data) {
        5
    } else {
        1
    }
}

/// Where the search for requested parts ends.
pub open spec fn search_end(v: OutgoingView) -> int {
    if v.receiver_min_consecutive_height + COLLISION_GUARD_SIZE < v.parts.len() {
        v.receiver_min_consecutive_height + COLLISION_GUARD_SIZE
    } else {
        v.parts.len() as int
    }
}

/// Part `i` is within reach and asked for.
pub open spec fn is_served(v: OutgoingView, data: Seq<u8>, i: int) -> bool {
    v.receiver_min_consecutive_height <= i < search_end(v) && asks_for(
        data,
        request_hash_at(data) + 32,
        v.part_hashes[i]@,
    )
}

/// The packets for the parts below `to` that are asked for, in order.
pub open spec fn served(v: OutgoingView, data: Seq<u8>, to: int) -> Seq<LinkPacketView>
    decreases to,
{
    if to <= 0 {
        Seq::empty()
    } else if is_served(v, data, to - 1) {
        served(v, data, to - 1).push(
            raw_packet(PacketType::Data, PacketContext::Resource, v.parts[to - 1]),
        )
    } else {
        served(v, data, to - 1)
    }
}

/// The number of parts up to and including the first one in `from..to` with this map hash, or
/// `to` when there is none.
pub open spec fn parts_through(hashes: Seq<[u8; 4]>, mh: Seq<u8>, from: int, to: int) -> int
    decreases to - from,
{
    if from >= to {
        from
    } else if hashes[from]@ == mh {
        from + 1
    } else {
        parts_through(hashes, mh, from + 1, to)
    }
}

/// A sender that has noticed a request: the transfer runs, and the first request after an
/// advertisement tells the round-trip time.
pub open spec fn noticed_request(v: OutgoingView, now: u64) -> OutgoingView {
    OutgoingView {
        rtt: if v.adv_sent is Some && v.rtt is None {
            Some(now.saturating_sub(v.adv_sent->0))
        } else {
            v.rtt
        },
        status: ResourceStatus::Transferring,
        retries_left: v.max_retries,
        ..v
    }
}

/// A sender that has served the parts of a request.
pub open spec fn served_parts(v: OutgoingView, data: Seq<u8>, now: u64) -> OutgoingView {
    let any = served(v, data, v.parts.len() as int).len() > 0;
    let part_sent = Seq::new(
        v.parts.len(),
        |i: int| v.part_sent[i] || is_served(v, data, i),
    );
    OutgoingView {
        part_sent,
        sent_parts: count_set(part_sent) as usize,
        last_activity: if any {
            now
        } else {
            v.last_activity
        },
        last_part_sent: if any {
            now
        } else {
            v.last_part_sent
        },
        ..v
    }
}

/// How far the receiver's map reaches, by the last map hash of its request.
pub open spec fn map_reach(v: OutgoingView, data: Seq<u8>) -> int {
    parts_through(
        v.part_hashes,
        data.subrange(1, 5),
        v.receiver_min_consecutive_height as int,
        search_end(v),
    )
}

/// The map hashes of the segment of the map that begins at part `reach`.
pub open spec fn map_segment(v: OutgoingView, reach: int) -> Seq<[u8; 4]> {
    v.part_hashes.subrange(
        reach,
        if reach + HASHMAP_MAX_LEN < v.parts.len() {
            reach + HASHMAP_MAX_LEN
        } else {
            v.parts.len() as int
        },
    )
}

/// The packet that extends the receiver's map from part `reach` on.
pub open spec fn hashmap_packet(v: OutgoingView, reach: int) -> LinkPacketView {
    sealed_packet(
        PacketContext::ResourceHashUpdate,
        v.hash@ + (msgpack::array_header(2) + msgpack::uint_encoding(
            (reach / HASHMAP_MAX_LEN as int) as nat,
        ) + msgpack::bin_encoding(flat(map_segment(v, reach)))),
    )
}

/// A sender whose parts have all been sent awaits the proof.
pub open spec fn maybe_awaiting_proof(v: OutgoingView) -> OutgoingView {
    if v.sent_parts == v.parts.len() {
        OutgoingView { status: ResourceStatus::AwaitingProof, retries_left: 3, ..v }
    } else {
        v
    }
}

/// What a request for more map hashes makes of a sender, the packets it is answered with, and
/// whether the transfer goes on.
pub open spec fn after_map_request(v: OutgoingView, data: Seq<u8>, now: u64) -> (
    OutgoingView,
    Seq<LinkPacketView>,
    bool,
) {
    let reach = map_reach(v, data);
    let moved = OutgoingView {
        receiver_min_consecutive_height: (reach as usize).saturating_sub((1 + WINDOW_MAX) as usize),
        ..v
    };
    if reach % HASHMAP_MAX_LEN as int != 0 || reach >= v.parts.len() {
        (OutgoingView { status: ResourceStatus::Failed, ..moved }, Seq::empty(), false)
    } else {
        (OutgoingView { last_activity: now, ..moved }, seq![hashmap_packet(v, reach)], true)
    }
}

/// What a request makes of a sender, and the packets it is answered with.
pub open spec fn after_request(v: OutgoingView, data: Seq<u8>, now: u64) -> (
    OutgoingView,
    Seq<LinkPacketView>,
) {
    let noticed = noticed_request(v, now);
    if data.len() < request_hash_at(data) + 32 {
        (noticed, Seq::empty())
    } else {
        let packets = served(noticed, data, v.parts.len() as int);
        let sent = served_parts(noticed, data, now);
        if !wants_hashmap(data) {
            (maybe_awaiting_proof(sent), packets)
        } else {
            let (mapped, update, going_on) = after_map_request(sent, data, now);
            (
                if going_on {
                    maybe_awaiting_proof(mapped)
                } else {
                    mapped
                },
                packets + update,
            )
        }
    }
}

/// What a watchdog pass makes of a sender that has advertised.
pub open spec fn after_advertised_check(v: OutgoingView, now: u64) -> (
    OutgoingView,
    Seq<LinkPacketView>,
    bool,
) {
    let sent_at = match v.adv_sent {
        Some(at) => at,
        None => now,
    };
    if now <= sent_at + v.timeout + PROCESSING_GRACE {
        (v, Seq::empty(), false)
    } else if v.retries_left == 0 {
        (OutgoingView { status: ResourceStatus::Failed, ..v }, Seq::empty(), true)
    } else {
        (advertised(v, now), seq![advertisement_packet(v)], false)
    }
}

/// What a watchdog pass makes of a sender that awaits the proof.
pub open spec fn after_proof_check(v: OutgoingView, rtt: u64, now: u64) -> (OutgoingView, bool) {
    let w = OutgoingView { timeout_factor: PROOF_TIMEOUT_FACTOR, ..v };
    if now <= v.last_part_sent + rtt * PROOF_TIMEOUT_FACTOR + v.sender_grace_time {
        (w, false)
    } else if v.retries_left == 0 {
        (OutgoingView { status: ResourceStatus::Failed, ..w }, true)
    } else {
        (
            OutgoingView {
                retries_left: (v.retries_left - 1) as usize,
                last_part_sent: now,
                ..w
            },
            false,
        )
    }
}

/// The longest silence of a receiver that a sender puts up with.
pub open spec fn max_wait(v: OutgoingView, rtt: u64) -> int {
    rtt * v.timeout_factor * v.max_retries + v.sender_grace_time + TOTAL_RETRY_DELAY
}

/// What a watchdog pass makes of a sender, the packets it sends, and whether the transfer failed.
pub open spec fn after_check(v: OutgoingView, link_rtt: u64, now: u64) -> (
    OutgoingView,
    Seq<LinkPacketView>,
    bool,
) {
    let rtt = match v.rtt {
        Some(rtt) => rtt,
        None => link_rtt,
    };
    match v.status {
        ResourceStatus::Advertised => after_advertised_check(v, now),
        ResourceStatus::Transferring => {
            if now > v.last_activity + max_wait(v, rtt) {
                (OutgoingView { status: ResourceStatus::Failed, ..v }, Seq::empty(), true)
            } else {
                (v, Seq::empty(), false)
            }
        },
        ResourceStatus::AwaitingProof => {
            let (w, failed) = after_proof_check(v, rtt, now);
            (w, Seq::empty(), failed)
        },
        _ => (v, Seq::empty(), false),
    }
}

/// Transfer progress with `done` of `parts` parts through segment `index` of `count`, where a
/// full segment has `full` parts: a short segment weighs as much as a full one.
pub open spec fn segment_progress(done: int, parts: int, index: int, count: int, full: int) -> (
    int,
    int,
) {
    if parts < full {
        ((index - 1) * full * parts + done * full, count * full * parts)
    } else {
        ((index - 1) * full + done, count * full)
    }
}

/// Transfer progress of a sender.
pub open spec fn sender_progress(v: OutgoingView) -> (int, int) {
    if v.status == ResourceStatus::Complete && v.segment_index == v.total_segments {
        (1, 1)
    } else if !v.split {
        (v.sent_parts as int, v.parts.len() as int)
    } else {
        segment_progress(
            v.sent_parts as int,
            v.parts.len() as int,
            v.segment_index as int,
            v.total_segments as int,
            part_count(MAX_EFFICIENT_SIZE as nat, v.sdu as nat) as int,
        )
    }
}

/// A fraction that is never more than one.
pub open spec fn at_most_one(fraction: (int, int)) -> Progress {
    Progress {
        done: (if fraction.0 > fraction.1 {
            fraction.1
        } else {
            fraction.0
        }) as u128,
        total: fraction.1 as u128,
    }
}

/// Computes a segment-weighted fraction; `index` counts from one.
pub fn weighted_fraction(
    done: usize,
    parts: usize,
    index: usize,
    count: usize,
    sdu: usize,
) -> (r: (u128, u128))
    requires
        sdu > 0,
        1 <= index,
    ensures
        (r.0 as int, r.1 as int) == segment_progress(
            done as int,
            parts as int,
            index as int,
            count as int,
            part_count(MAX_EFFICIENT_SIZE as nat, sdu as nat) as int,
        ),
{
    let full: usize = parts_of(MAX_EFFICIENT_SIZE, sdu);
    proof {
        assert(full <= MAX_EFFICIENT_SIZE) by {
            let d = sdu as int;
            let x = MAX_EFFICIENT_SIZE + d - 1;
            vstd::arithmetic::div_mod::lemma_fundamental_div_mod(x, d);
            assert(full <= MAX_EFFICIENT_SIZE) by (nonlinear_arith)
                requires
                    x == d * full + x % d,
                    0 <= x % d < d,
                    x == MAX_EFFICIENT_SIZE + d - 1,
                    d >= 1,
            ;
        }
        product_bound((index - 1) as int, full as int);
        product_bound(done as int, full as int);
        product_bound(count as int, full as int);
        if parts < full {
            triple_bound((index - 1) as int, full as int, parts as int);
            triple_bound(count as int, full as int, parts as int);
        }
    }
    if parts < full {
        (
            (index as u128 - 1) * (full as u128) * (parts as u128) + (done as u128) * (
            full as u128),
            (count as u128) * (full as u128) * (parts as u128),
        )
    } else {
        (
            (index as u128 - 1) * (full as u128) + done as u128,
            (count as u128) * (full as u128),
        )
    }
}

proof fn product_bound(a: int, b: int)
    by (nonlinear_arith)
    requires
        0 <= a <= 0xffff_ffff_ffff_ffff,
        0 <= b <= 0x10_0000,
    ensures
        0 <= a * b <= 0x10_0000 * 0xffff_ffff_ffff_ffff,
{
}

proof fn triple_bound(a: int, b: int, c: int)
    by (nonlinear_arith)
    requires
        0 <= a <= 0xffff_ffff_ffff_ffff,
        0 <= b <= 0x10_0000,
        0 <= c <= 0x10_0000,
    ensures
        0 <= a * b * c <= 0x10_0000 * 0x10_0000 * 0xffff_ffff_ffff_ffff,
{
    assert(0 <= a * b <= 0x10_0000 * 0xffff_ffff_ffff_ffff);
}

/// Whether a request whose map hashes begin at `from` asks for the part with this map hash.
fn request_asks_for(data: &[u8], from: usize, mh: &[u8; 4]) -> (r: bool)
    requires
        from <= data@.len(),
    ensures
        r == asks_for(data@, from as int, mh@),
{
    let mut at: usize = from;
    let ghost mut k: int = 0;
    while data.len() - at >= 4
        invariant
            from <= at <= data@.len(),
            k >= 0,
            at == from + 4 * k,
            forall|j: int| 0 <= j < k ==> #[trigger] nth_hash(data@, from as int, j) != mh@,
        decreases data@.len() - at,
    {
        let here: [u8; 4] = [data[at], data[at + 1], data[at + 2], data[at + 3]];
        assert(here@ =~= nth_hash(data@, from as int, k));
        if same_map_hash(&here, mh) {
            return true;
        }
        assert(here@ != mh@) by {
            if here@ == mh@ {
                assert(here =~= *mh);
            }
        }
        at += 4;
        proof {
            k = k + 1;
        }
    }
    false
}

/// A hashmap update is short enough for a single packet.
proof fn update_len(v: OutgoingView, reach: int)
    requires
        0 <= reach < v.parts.len(),
        v.parts.len() == v.part_hashes.len(),
    ensures
        hashmap_packet(v, reach).data.len() <= 512,
{
    flat_len(map_segment(v, reach));
    msgpack::bin_len(flat(map_segment(v, reach)));
    msgpack::uint_len((reach / HASHMAP_MAX_LEN as int) as nat);
}

/// Nothing is served outside the searched range.
proof fn served_outside(v: OutgoingView, data: Seq<u8>, from: int, to: int)
    requires
        from <= to,
        forall|i: int| from <= i < to ==> !is_served(v, data, i),
    ensures
        served(v, data, to) == served(v, data, from),
    decreases to - from,
{
    if from < to && to > 0 {
        served_outside(v, data, from, to - 1);
    }
}

impl OutgoingResource {
    /// Advertises the resource.
    pub fn advertise(&mut self, link: &Link, now: u64, tx: &mut ResourceTx) -> (r: Result<
        (),
        RnsError,
    >)
        requires
            old(self).wf(),
        ensures
            r is Ok,
            final(self).wf(),
            final(self)@ == advertised(old(self)@, now),
            final(tx)@ == old(tx)@.push(advertisement_packet(old(self)@)),
    {
        let advertisement: ResourceAdvertisement = self.advertisement();
        let packed: Vec<u8> = advertisement.pack();
        proof {
            crate::resource::advertisement::packed_len(advertisement@);
        }
        let packet: LinkPacket = link.context_packet(
            &packed,
            PacketContext::ResourceAdvertisement,
        )?;
        self.status = ResourceStatus::Advertised;
        self.adv_sent = Some(now);
        self.last_activity = now;
        self.rtt = None;
        self.retries_left = MAX_ADV_RETRIES;
        tx.push(packet);
        Ok(())
    }

    /// Sends the parts that a request asks for and that are within reach.
    fn serve(&mut self, request_data: &[u8], now: u64, tx: &mut ResourceTx)
        requires
            old(self).wf(),
            request_data@.len() >= request_hash_at(request_data@) + 32,
        ensures
            final(self).wf(),
            final(self)@ == served_parts(old(self)@, request_data@, now),
            final(tx)@ == old(tx)@ + served(
                old(self)@,
                request_data@,
                old(self)@.parts.len() as int,
            ),
    {
        let ghost v = self@;
        let ghost data = request_data@;
        let from: usize = if request_data[0] == HASHMAP_IS_EXHAUSTED {
            5 + 32
        } else {
            1 + 32
        };
        let start: usize = self.receiver_min_consecutive_height;
        let end: usize = if self.parts.len() - start > COLLISION_GUARD_SIZE {
            start + COLLISION_GUARD_SIZE
        } else {
            self.parts.len()
        };
        let mut i: usize = start;
        proof {
            served_outside(v, data, 0, start as int);
            assert(old(tx)@ + Seq::<LinkPacketView>::empty() =~= old(tx)@);
        }
        while i < end
            invariant
                start <= i <= end,
                end == search_end(v),
                end <= v.parts.len(),
                start == v.receiver_min_consecutive_height,
                data == request_data@,
                v == old(self)@,
                sender_wf(v),
                from == request_hash_at(data) + 32,
                from <= data.len(),
                self@ == (OutgoingView {
                    part_sent: self@.part_sent,
                    sent_parts: self@.sent_parts,
                    last_activity: self@.last_activity,
                    last_part_sent: self@.last_part_sent,
                    ..v
                }),
                self@.part_sent.len() == v.parts.len(),
                forall|j: int|
                    0 <= j < v.parts.len() ==> #[trigger] self@.part_sent[j] == (v.part_sent[j]
                        || (j < i && is_served(v, data, j))),
                self@.sent_parts == count_set(self@.part_sent),
                tx@ == old(tx)@ + served(v, data, i as int),
                self@.last_activity == (if served(v, data, i as int).len() > 0 {
                    now
                } else {
                    v.last_activity
                }),
                self@.last_part_sent == (if served(v, data, i as int).len() > 0 {
                    now
                } else {
                    v.last_part_sent
                }),
            decreases end - i,
        {
            let ghost before = tx@;
            assert(self@.parts.len() == self.parts@.len());
            if request_asks_for(request_data, from, &self.part_hashes[i]) {
                assert(is_served(v, data, i as int));
                if !self.part_sent[i] {
                    let count: usize = self.part_sent.len();
                    proof {
                        assert(count == self.part_sent@.len());
                        count_set_update(self.part_sent@, i as int);
                        count_set_bound(self.part_sent@.update(i as int, true));
                    }
                    self.part_sent.set(i, true);
                    self.sent_parts = self.sent_parts + 1;
                }
                assert(self@.parts[i as int] == self.parts@[i as int]@);
                tx.push(
                    LinkPacket {
                        packet_type: PacketType::Data,
                        context: PacketContext::Resource,
                        sealed: false,
                        data: bytes::to_vec(&self.parts[i]),
                    },
                );
                self.last_activity = now;
                self.last_part_sent = now;
                assert(tx@ =~= old(tx)@ + served(v, data, i + 1));
            } else {
                assert(!is_served(v, data, i as int));
            }
            i += 1;
        }
        proof {
            served_outside(v, data, end as int, v.parts.len() as int);
            assert(self@.part_sent =~= served_parts(v, data, now).part_sent);
            assert(self@ =~= served_parts(v, data, now));
        }
    }

    /// Answers a request for more map hashes. Returns whether the transfer goes on.
    fn extend_map(
        &mut self,
        link: &Link,
        request_data: &[u8],
        now: u64,
        tx: &mut ResourceTx,
    ) -> (r: bool)
        requires
            old(self).wf(),
            request_data@.len() >= 5,
        ensures
            final(self).wf(),
            final(self)@ == after_map_request(old(self)@, request_data@, now).0,
            final(tx)@ == old(tx)@ + after_map_request(old(self)@, request_data@, now).1,
            r == after_map_request(old(self)@, request_data@, now).2,
    {
        let ghost v = self@;
        let ghost data = request_data@;
        let count: usize = self.parts.len();
        assert(count == v.parts.len());
        let start: usize = self.receiver_min_consecutive_height;
        let end: usize = if count - start > COLLISION_GUARD_SIZE {
            start + COLLISION_GUARD_SIZE
        } else {
            count
        };
        let last: [u8; 4] = [request_data[1], request_data[2], request_data[3], request_data[4]];
        assert(last@ =~= data.subrange(1, 5));
        let reach: usize = self.find_part(&last, start, end);
        assert(reach == map_reach(v, data));
        self.receiver_min_consecutive_height = reach.saturating_sub(1 + WINDOW_MAX);
        if reach % HASHMAP_MAX_LEN != 0 || reach >= count {
            self.status = ResourceStatus::Failed;
            assert(tx@ =~= old(tx)@ + Seq::<LinkPacketView>::empty());
            return false;
        }
        let update: Vec<u8> = self.map_update(reach);
        proof {
            update_len(v, reach as int);
        }
        match link.context_packet(&update, PacketContext::ResourceHashUpdate) {
            Ok(packet) => {
                tx.push(packet);
                self.last_activity = now;
            },
            Err(_) => {
                assert(false);
            },
        }
        assert(tx@ =~= old(tx)@ + seq![hashmap_packet(v, reach as int)]);
        true
    }

    /// The number of parts up to and including the first one in `start..end` with this map hash.
    fn find_part(&self, mh: &[u8; 4], start: usize, end: usize) -> (r: usize)
        requires
            start <= end <= self.part_hashes@.len(),
        ensures
            r == parts_through(self.part_hashes@, mh@, start as int, end as int),
            start <= r <= end,
    {
        let mut i: usize = start;
        while i < end
            invariant
                start <= i <= end <= self.part_hashes@.len(),
                parts_through(self.part_hashes@, mh@, start as int, end as int) == parts_through(
                    self.part_hashes@,
                    mh@,
                    i as int,
                    end as int,
                ),
            decreases end - i,
        {
            if same_map_hash(&self.part_hashes[i], mh) {
                return i + 1;
            }
            assert(self.part_hashes@[i as int]@ != mh@) by {
                if self.part_hashes@[i as int]@ == mh@ {
                    assert(self.part_hashes@[i as int] =~= *mh);
                }
            }
            i += 1;
        }
        i
    }

    /// The payload that extends the receiver's map from part `reach` on.
    fn map_update(&self, reach: usize) -> (update: Vec<u8>)
        requires
            self.part_hashes@.len() == self.parts@.len(),
            reach < self.parts@.len(),
        ensures
            update@ == hashmap_packet(self@, reach as int).data,
    {
        let map_end: usize = if self.parts.len() - reach > HASHMAP_MAX_LEN {
            reach + HASHMAP_MAX_LEN
        } else {
            self.parts.len()
        };
        let mut hashmap: Vec<u8> = Vec::new();
        append_hashes(&mut hashmap, &self.part_hashes, reach, map_end);
        let mut update: Vec<u8> = bytes::to_vec(self.hash.as_slice());
        proof {
            assert(self.part_hashes@.subrange(reach as int, map_end as int) == map_segment(
                self@,
                reach as int,
            ));
            assert(hashmap@ =~= flat(map_segment(self@, reach as int)));
            flat_len(map_segment(self@, reach as int));
        }
        msgpack::write_array_len(&mut update, 2);
        msgpack::write_uint(&mut update, (reach / HASHMAP_MAX_LEN) as u64);
        msgpack::write_bin(&mut update, &hashmap);
        assert(update@ =~= hashmap_packet(self@, reach as int).data);
        update
    }

    /// Notices a request: the transfer runs.
    fn notice_request(&mut self, now: u64)
        requires
            old(self).wf(),
        ensures
            final(self).wf(),
            final(self)@ == noticed_request(old(self)@, now),
    {
        if let Some(adv_sent) = self.adv_sent {
            if self.rtt.is_none() {
                self.rtt = Some(now.saturating_sub(adv_sent));
            }
        }
        self.status = ResourceStatus::Transferring;
        self.retries_left = self.max_retries;
    }

    /// Starts to await the proof once all parts have been sent.
    fn await_proof(&mut self)
        requires
            old(self).wf(),
        ensures
            final(self).wf(),
            final(self)@ == maybe_awaiting_proof(old(self)@),
    {
        assert(self@.parts.len() == self.parts@.len());
        if self.sent_parts == self.parts.len() {
            self.status = ResourceStatus::AwaitingProof;
            self.retries_left = 3;
        }
    }

    /// Handles a part request.
    pub fn request(&mut self, link: &Link, request_data: &[u8], now: u64, tx: &mut ResourceTx)
        requires
            old(self).wf(),
        ensures
            final(self).wf(),
            final(self)@ == after_request(old(self)@, request_data@, now).0,
            final(tx)@ == old(tx)@ + after_request(old(self)@, request_data@, now).1,
    {
        self.notice_request(now);
        let wants_more: bool = request_data.len() > 0 && request_data[0] == HASHMAP_IS_EXHAUSTED;
        let pad: usize = if wants_more {
            5
        } else {
            1
        };
        if request_data.len() < pad + 32 {
            assert(tx@ =~= old(tx)@ + Seq::<LinkPacketView>::empty());
            return;
        }
        self.serve(request_data, now, tx);
        if wants_more {
            let going_on: bool = self.extend_map(link, request_data, now, tx);
            assert(tx@ =~= old(tx)@ + after_request(old(self)@, request_data@, now).1);
            if going_on {
                self.await_proof();
            }
        } else {
            self.await_proof();
        }
    }

    /// Validates a proof payload: the resource hash, then the proof hash.
    pub fn validate_proof(&mut self, proof_data: &[u8]) -> (r: bool)
        ensures
            r == (proof_data@.len() == 64 && proof_data@.subrange(32, 64)
                == old(self).expected_proof@),
            final(self)@ == (if r {
                OutgoingView { status: ResourceStatus::Complete, ..old(self)@ }
            } else {
                old(self)@
            }),
    {
        if proof_data.len() == 64 {
            if bytes::equal(&proof_data[32..64], self.expected_proof.as_slice()) {
                self.status = ResourceStatus::Complete;
                return true;
            }
        }
        false
    }

    /// Cancels the transfer from the sender's side.
    pub fn cancel_packet(&mut self, link: &Link, tx: &mut ResourceTx)
        ensures
            final(self)@ == (OutgoingView { status: ResourceStatus::Failed, ..old(self)@ }),
            final(tx)@ == old(tx)@.push(
                sealed_packet(PacketContext::ResourceInitiatorCancel, old(self).hash@),
            ),
    {
        match link.context_packet(self.hash.as_slice(), PacketContext::ResourceInitiatorCancel) {
            Ok(packet) => tx.push(packet),
            Err(_) => {
                assert(false);
            },
        }
        self.status = ResourceStatus::Failed;
    }

    /// Watchdog of a sender that has advertised.
    fn check_advertised(&mut self, link: &Link, now: u64, tx: &mut ResourceTx) -> (r: bool)
        requires
            old(self).wf(),
        ensures
            final(self).wf(),
            final(self)@ == after_advertised_check(old(self)@, now).0,
            final(tx)@ == old(tx)@ + after_advertised_check(old(self)@, now).1,
            r == after_advertised_check(old(self)@, now).2,
    {
        let sent_at: u64 = match self.adv_sent {
            Some(at) => at,
            None => now,
        };
        assert(tx@ =~= old(tx)@ + Seq::<LinkPacketView>::empty());
        if now as u128 > sent_at as u128 + self.timeout + PROCESSING_GRACE as u128 {
            if self.retries_left == 0 {
                self.status = ResourceStatus::Failed;
                return true;
            }
            let _ = self.advertise(link, now, tx);
            assert(tx@ =~= old(tx)@ + seq![advertisement_packet(old(self)@)]);
        }
        false
    }

    /// Watchdog of a sender that awaits the proof.
    fn check_proof(&mut self, rtt: u64, now: u64) -> (r: bool)
        requires
            old(self).wf(),
        ensures
            final(self).wf(),
            final(self)@ == after_proof_check(old(self)@, rtt, now).0,
            r == after_proof_check(old(self)@, rtt, now).1,
    {
        self.timeout_factor = PROOF_TIMEOUT_FACTOR;
        let deadline: u128 = self.last_part_sent as u128 + (rtt as u128) * 3
            + self.sender_grace_time as u128;
        if now as u128 > deadline {
            if self.retries_left == 0 {
                self.status = ResourceStatus::Failed;
                return true;
            }
            self.retries_left = self.retries_left - 1;
            self.last_part_sent = now;
        }
        false
    }

    /// The longest silence of the receiver that this sender puts up with.
    fn longest_silence(&self, rtt: u64) -> (r: u128)
        requires
            self.wf(),
        ensures
            r == max_wait(self@, rtt),
            r <= 0x1000_0000_0000_0000_0000,
    {
        let rounds: u64 = self.timeout_factor * self.max_retries as u64;
        assert(rtt * self.timeout_factor * self.max_retries == rtt * rounds) by (nonlinear_arith)
            requires
                rounds == self.timeout_factor * self.max_retries,
        ;
        assert(rtt * rounds <= 96 * 0xffff_ffff_ffff_ffff) by (nonlinear_arith)
            requires
                0 <= rtt <= 0xffff_ffff_ffff_ffff,
                0 <= rounds <= 96,
        ;
        rtt as u128 * rounds as u128 + self.sender_grace_time as u128 + TOTAL_RETRY_DELAY as u128
    }

    /// Watchdog of the sender: advertises again, or gives up. Returns whether the transfer
    /// failed.
    pub fn check(&mut self, link: &Link, now: u64, tx: &mut ResourceTx) -> (r: bool)
        requires
            old(self).wf(),
        ensures
            final(self).wf(),
            final(self)@ == after_check(old(self)@, link.rtt, now).0,
            final(tx)@ == old(tx)@ + after_check(old(self)@, link.rtt, now).1,
            r == after_check(old(self)@, link.rtt, now).2,
    {
        let rtt: u64 = match self.rtt {
            Some(rtt) => rtt,
            None => link.rtt,
        };
        assert(tx@ =~= old(tx)@ + Seq::<LinkPacketView>::empty());
        match self.status {
            ResourceStatus::Advertised => self.check_advertised(link, now, tx),
            ResourceStatus::Transferring => {
                if now as u128 > self.last_activity as u128 + self.longest_silence(rtt) {
                    self.status = ResourceStatus::Failed;
                    return true;
                }
                false
            },
            ResourceStatus::AwaitingProof => self.check_proof(rtt, now),
            _ => false,
        }
    }

    /// Transfer progress, weighted over the segments.
    pub fn progress(&self) -> (r: Progress)
        requires
            self.wf(),
        ensures
            r == at_most_one(sender_progress(self@)),
    {
        if self.status == ResourceStatus::Complete && self.segment_index == self.total_segments {
            return Progress { done: 1, total: 1 };
        }
        if !self.split {
            proof {
                count_set_bound(self.part_sent@);
            }
            return Progress { done: self.sent_parts as u128, total: self.parts.len() as u128 };
        }
        let (done, total) = weighted_fraction(
            self.sent_parts,
            self.parts.len(),
            self.segment_index,
            self.total_segments,
            self.sdu,
        );
        Progress {
            done: if done > total {
                total
            } else {
                done
            },
            total,
        }
    }
}

} // verus!
