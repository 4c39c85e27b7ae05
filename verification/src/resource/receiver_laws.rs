//! What holds of a receiver as parts arrive: where they go, what is asked for next, and what is
//! measured on the way.

use vstd::prelude::*;

use crate::hash::sha256_digest;
use crate::link::{Link, Rate};
use crate::packet::PacketContext;
use crate::resource::advertisement::AdvertisementView;
use crate::resource::inbound::{
    accepted, after_hashmap, after_part, after_request_next, first_match, four_bytes, map_gap,
    measured_rate, missing_hashes, noticed_part, proof_payload, receiver_wf, received_stream,
    stored_part, unsealed_stream, window_end, window_start, IncomingView,
};
use crate::resource::outbound::{
    advertisement_view, after_request, map_reach, part_size, sealed_sender, segment_progress,
    OutgoingView, PendingSegment,
};
use crate::resource::segment::{segment_bytes, segment_count};
use crate::resource::{part_count, ResourceStatus};

verus! {

/// A receiver starts with nothing: no part, no map hash, a window of four parts or what the last
/// resource on the link reached, of at least two and at most ten, and sixteen retries. What it
/// receives is what the advertisement says.
pub proof fn receivers_start_with_nothing(a: AdvertisementView, link: Link, now: u64, v: IncomingView)
    requires
        accepted(a, link, now, v),
        part_size(link) > 0,
    ensures
        v.status == ResourceStatus::Transferring,
        v.link_id == link.id,
        v.hash@ == a.hash && v.original_hash@ == a.original_hash && v.random_hash@ == a.random_hash,
        v.size == a.transfer_size && v.total_size == a.data_size,
        v.segment_index == a.segment_index && v.total_segments == a.total_segments,
        v.encrypted == (a.flags & 1 != 0),
        v.compressed == (a.flags & 2 != 0),
        v.split == (a.flags & 4 != 0),
        v.has_metadata == (a.flags & 32 != 0),
        v.is_response == (a.request_id is Some && a.flags & 16 != 0),
        a.transfer_size > 0 ==> v.total_parts == part_count(a.transfer_size, part_size(link) as nat),
        a.transfer_size == 0 ==> v.total_parts == 1,
        forall|i: int| 0 <= i < v.parts.len() ==> (#[trigger] v.parts[i]) is None,
        forall|i: int| 0 <= i < v.hashmap.len() ==> (#[trigger] v.hashmap[i]) is None,
        v.outstanding_parts == 0 && !v.waiting_for_hmu && v.consecutive_completed_height == -1,
        link.last_resource_window is None ==> v.window == 4,
        link.last_resource_window is Some ==> v.window == link.last_resource_window->0,
        v.window_min == 2 && v.window_max == 10 && v.window_flexibility == 4,
        v.retries_left == 16,
        v.part_timeout_factor == 4,
        v.last_activity == now && v.started_transferring == now,
        v.req_sent == 0 && v.req_resp is None && v.rtt is None,
        v.req_sent_bytes == 0 && v.rtt_rxd_bytes == 0 && v.rtt_rxd_bytes_at_part_req == 0,
        v.req_resp_rtt_rate.bytes == 0 && v.req_data_rtt_rate.bytes == 0 && v.eifr is None,
        v.fast_rate_rounds == 0 && v.very_slow_rate_rounds == 0,
        v.sdu == part_size(link),
        crate::resource::advertisement::address_bytes(v.request_id) == a.request_id,
        v.previous_eifr == link.last_resource_eifr,
        v.assembled is None && v.metadata is None,
{
    if a.transfer_size > 0 {
        crate::resource::manager_laws::parts_hold_the_data(
            a.transfer_size,
            part_size(link) as nat,
        );
        assert(part_count(a.transfer_size, part_size(link) as nat) != 0) by {
            if part_count(a.transfer_size, part_size(link) as nat) == 0 {
                assert(0 * part_size(link) >= a.transfer_size);
            }
        }
    } else {
        crate::resource::manager_laws::parts_hold_the_data(0, part_size(link) as nat);
    }
}

proof fn first_match_is_first(map: Seq<Option<[u8; 4]>>, mh: Seq<u8>, from: int, to: int, k: int)
    requires
        from <= k <= to,
        forall|j: int|
            from <= j < k ==> (#[trigger] map[j]) is None || map[j]->0@ != mh,
        k < to ==> map[k] is Some && map[k]->0@ == mh,
    ensures
        first_match(map, mh, from, to) == k,
    decreases to - from,
{
    if from < k {
        first_match_is_first(map, mh, from + 1, to, k);
    }
}

/// A part goes to the first slot of the window whose map hash is its own, where that slot is empty.
/// It is counted, it is no longer awaited, and no other slot changes.
pub proof fn parts_go_to_their_slot(v: IncomingView, data: Seq<u8>, k: int)
    requires
        receiver_wf(v),
        window_start(v) <= k < window_end(v),
        v.hashmap[k] is Some,
        v.hashmap[k]->0@ == sha256_digest(data + v.random_hash@).subrange(0, 4),
        forall|j: int|
            window_start(v) <= j < k ==> (#[trigger] v.hashmap[j]) is None || v.hashmap[j]->0@
                != sha256_digest(data + v.random_hash@).subrange(0, 4),
    ensures
        ({
            let after = stored_part(v, data);
            &&& v.parts[k] is None ==> after.parts == v.parts.update(k, Some(data))
            &&& v.parts[k] is None ==> after.received_count == v.received_count + 1
            &&& v.parts[k] is None && v.outstanding_parts > 0 ==> after.outstanding_parts
                == v.outstanding_parts - 1
            &&& v.parts[k] is None ==> after.rtt_rxd_bytes == v.rtt_rxd_bytes + data.len()
                || v.rtt_rxd_bytes + data.len() > u64::MAX
            &&& v.parts[k] is Some ==> after == (IncomingView {
                status: ResourceStatus::Transferring,
                ..v
            })
            &&& after.hashmap == v.hashmap
            &&& after.window == v.window
        }),
{
    first_match_is_first(
        v.hashmap,
        sha256_digest(data + v.random_hash@).subrange(0, 4),
        window_start(v),
        window_end(v),
        k,
    );
    crate::resource::inbound::count_present_bound(v.parts);
}

/// The window begins at the last part before the first missing one and is as long as the window
/// says, or ends with the parts.
pub proof fn windows_begin_before_the_first_missing_part(v: IncomingView)
    requires
        receiver_wf(v),
    ensures
        v.consecutive_completed_height < 0 ==> window_start(v) == 0,
        v.consecutive_completed_height >= 0 ==> window_start(v) == v.consecutive_completed_height,
        window_start(v) + v.window <= v.total_parts ==> window_end(v) == window_start(v) + v.window,
        window_start(v) + v.window >= v.total_parts ==> window_end(v) == v.total_parts,
{
}

/// A part whose map hash is not in the window is not stored.
pub proof fn unknown_parts_are_not_stored(v: IncomingView, data: Seq<u8>)
    requires
        receiver_wf(v),
        forall|j: int|
            window_start(v) <= j < window_end(v) ==> (#[trigger] v.hashmap[j]) is None
                || v.hashmap[j]->0@ != sha256_digest(data + v.random_hash@).subrange(0, 4),
    ensures
        stored_part(v, data) == (IncomingView { status: ResourceStatus::Transferring, ..v }),
{
    if window_start(v) <= window_end(v) {
        first_match_is_first(
            v.hashmap,
            sha256_digest(data + v.random_hash@).subrange(0, 4),
            window_start(v),
            window_end(v),
            window_end(v),
        );
    }
}

/// The last part that was missing ends the transfer and starts the assembly. The last one that was
/// awaited brings the next request; before that nothing is sent.
pub proof fn parts_bring_the_next_step(v: IncomingView, data: Seq<u8>, link_rtt: u64, now: u64)
    requires
        v.status != ResourceStatus::Failed,
        v.assembled is None,
    ensures
        ({
            let stored = stored_part(noticed_part(v, data.len(), link_rtt, now), data);
            let (after, packets, complete) = after_part(v, data, link_rtt, now);
            &&& complete <==> stored.received_count == stored.total_parts
            &&& complete ==> after.status == ResourceStatus::Assembling && packets.len() == 0
            &&& complete ==> after.parts == stored.parts
            &&& !complete && stored.outstanding_parts > 0 ==> after == stored && packets.len() == 0
            &&& !complete && stored.outstanding_parts == 0 && stored.waiting_for_hmu
                ==> packets.len() == 0
            &&& !complete && stored.outstanding_parts == 0 && !stored.waiting_for_hmu
                && after.status != ResourceStatus::Failed ==> packets.len() == 1
                && packets[0].context == PacketContext::ResourceRequest && after.req_sent == now
        }),
{
}

/// The first part after a request gives its round-trip time, and the rate at which the answer came;
/// from then on the receiver waits half as long for each part. Later parts are no answer any more.
pub proof fn first_parts_are_answers(v: IncomingView, len: nat, link_rtt: u64, now: u64)
    requires
        receiver_wf(v),
        len <= 2048,
    ensures
        ({
            let after = noticed_part(v, len, link_rtt, now);
            &&& v.req_resp is None && v.req_sent > 0 ==> after.req_resp == Some(now)
                && after.part_timeout_factor == 2
            &&& v.req_resp is None && v.req_sent > 0 && v.rtt is None ==> after.rtt == Some(link_rtt)
            &&& v.req_resp is None && 0 < v.req_sent < now ==> after.req_resp_rtt_rate == (Rate {
                bytes: (len + v.req_sent_bytes) as u64,
                nanos: (now - v.req_sent) as u64,
            })
            &&& v.req_resp is Some ==> after == (IncomingView {
                last_activity: now,
                retries_left: v.max_retries,
                ..v
            })
            &&& after.parts == v.parts
            &&& after.received_count == v.received_count
        }),
{
}

/// The rate of a round is what arrived since the request over the time since then.
pub proof fn rounds_are_measured(v: IncomingView, now: u64)
    requires
        receiver_wf(v),
    ensures
        v.req_sent == 0 || now <= v.req_sent ==> measured_rate(v, now) == v,
        0 < v.req_sent < now ==> ({
            let after = measured_rate(v, now);
            &&& after.req_data_rtt_rate.bytes == v.rtt_rxd_bytes - v.rtt_rxd_bytes_at_part_req
            &&& after.req_data_rtt_rate.nanos == now - v.req_sent
            &&& after.rtt_rxd_bytes_at_part_req == v.rtt_rxd_bytes
            &&& after.window == v.window
            &&& after.parts == v.parts
        }),
{
}

proof fn gap_is_first(v: IncomingView, from: int, to: int)
    requires
        0 <= from,
        to <= v.parts.len(),
    ensures
        ({
            let gap = map_gap(v, from, to);
            &&& from <= to ==> from <= gap <= to
            &&& forall|i: int|
                from <= i < gap && (#[trigger] v.parts[i]) is None ==> v.hashmap[i] is Some
            &&& gap < to && from <= to ==> v.parts[gap] is None && v.hashmap[gap] is None
        }),
    decreases to - from,
{
    if from < to && !(v.parts[from] is None && v.hashmap[from] is None) {
        gap_is_first(v, from + 1, to);
        assert forall|i: int|
            from <= i < map_gap(v, from, to) && (#[trigger] v.parts[i]) is None implies v.hashmap[i]
            is Some by {
            if i > from {
                assert(v.parts[i] is None);
            }
        }
    }
}

proof fn missing_is_short(v: IncomingView, from: int, to: int)
    requires
        from <= to,
    ensures
        missing_hashes(v, from, to).len() % 4 == 0,
        missing_hashes(v, from, to).len() <= 4 * (to - from),
    decreases to - from,
{
    if from < to {
        missing_is_short(v, from, to - 1);
    }
}

/// A request names at most as many parts as the window has room for, and awaits those. Where a map
/// hash is missing among them, it asks for more of the map, and the receiver waits for that.
pub proof fn requests_stay_within_the_window(v: IncomingView, now: u64)
    requires
        receiver_wf(v),
        v.status == ResourceStatus::Transferring,
        !v.waiting_for_hmu,
        v.window >= 1,
    ensures
        ({
            let (after, packets) = after_request_next(v, now);
            let first = v.consecutive_completed_height + 1;
            let end = if first + v.window < v.total_parts {
                first + v.window
            } else {
                v.total_parts as int
            };
            let gap = exists|i: int|
                first <= i < end && (#[trigger] v.parts[i]) is None && v.hashmap[i] is None;
            &&& after.outstanding_parts <= v.window
            &&& v.window <= 75 && (!gap || (v.hashmap_height > 0 && v.hashmap[v.hashmap_height - 1]
                is Some)) ==> after.status == ResourceStatus::Transferring
            &&& after.status != ResourceStatus::Failed ==> {
                &&& packets.len() == 1
                &&& packets[0].context == PacketContext::ResourceRequest
                &&& packets[0].sealed
                &&& after.req_sent == now
                &&& after.last_activity == now
                &&& after.req_resp is None
                &&& after.rtt_rxd_bytes_at_part_req == v.rtt_rxd_bytes
                &&& after.waiting_for_hmu == gap
                &&& gap ==> packets[0].data.len() == 37 + 4 * after.outstanding_parts
                &&& gap ==> packets[0].data[0] == 0xff
                &&& gap ==> packets[0].data.subrange(1, 5) == v.hashmap[v.hashmap_height - 1]->0@
                &&& gap ==> packets[0].data.subrange(5, 37) == v.hash@
                &&& !gap ==> packets[0].data.len() == 33 + 4 * after.outstanding_parts
                &&& !gap ==> packets[0].data[0] == 0
                &&& !gap ==> packets[0].data.subrange(1, 33) == v.hash@
            }
            &&& after.status == ResourceStatus::Failed ==> packets.len() == 0
            &&& after.parts == v.parts
            &&& after.hashmap == v.hashmap
            &&& after.retries_left == v.retries_left
        }),
{
    let first = v.consecutive_completed_height + 1;
    let end = if first + v.window < v.total_parts {
        first + v.window
    } else {
        v.total_parts as int
    };
    assert(first <= end);
    gap_is_first(v, first, end);
    let stop = map_gap(v, first, end);
    missing_is_short(v, first, stop);
    let missing = missing_hashes(v, first, stop);
    assert(missing.len() / 4 <= v.window);
    if stop == end {
        assert(forall|i: int|
            first <= i < end && (#[trigger] v.parts[i]) is None ==> v.hashmap[i] is Some);
    }
    let (after, packets) = after_request_next(v, now);
    if after.status != ResourceStatus::Failed {
        let gap = exists|i: int|
            first <= i < end && (#[trigger] v.parts[i]) is None && v.hashmap[i] is None;
        if stop < end {
            assert(v.parts[stop] is None && v.hashmap[stop] is None);
            assert(gap);
            let last = v.hashmap[v.hashmap_height - 1]->0@;
            let data = seq![0xffu8] + last + v.hash@ + missing;
            assert(packets[0].data == data);
            assert(data.subrange(1, 5) =~= last);
            assert(data.subrange(5, 37) =~= v.hash@);
        } else {
            assert(!gap);
            let data = seq![0u8] + v.hash@ + missing;
            assert(packets[0].data == data);
            assert(data.subrange(1, 33) =~= v.hash@);
        }
    }
}

/// Every missing part before the gap in the map is named in the request, by its map hash.
pub proof fn missing_parts_are_named(v: IncomingView, from: int, to: int, i: int)
    requires
        0 <= from <= i < to <= v.parts.len(),
        v.parts[i] is None,
        v.hashmap[i] is Some,
    ensures
        exists|k: int|
            #![trigger crate::resource::outbound::nth_hash(missing_hashes(v, from, to), 0, k)]
            0 <= k && 4 * k + 4 <= missing_hashes(v, from, to).len()
                && crate::resource::outbound::nth_hash(missing_hashes(v, from, to), 0, k)
                == v.hashmap[i]->0@,
    decreases to - from,
{
    let all = missing_hashes(v, from, to);
    missing_is_short(v, from, to);
    missing_is_short(v, from, to - 1);
    let before = missing_hashes(v, from, to - 1);
    if i == to - 1 {
        let k = before.len() as int / 4;
        assert(crate::resource::outbound::nth_hash(all, 0, k) =~= v.hashmap[i]->0@);
    } else {
        missing_parts_are_named(v, from, to - 1, i);
        let k = choose|k: int|
            #![trigger crate::resource::outbound::nth_hash(before, 0, k)]
            0 <= k && 4 * k + 4 <= before.len() && crate::resource::outbound::nth_hash(before, 0, k)
                == v.hashmap[i]->0@;
        assert(crate::resource::outbound::nth_hash(all, 0, k) =~= crate::resource::outbound::nth_hash(
            before,
            0,
            k,
        ));
    }
}

/// No part is named that has arrived.
pub proof fn arrived_parts_are_not_named(v: IncomingView, from: int, to: int, k: int)
    requires
        0 <= from <= to <= v.parts.len(),
        0 <= k,
        4 * k + 4 <= missing_hashes(v, from, to).len(),
    ensures
        exists|i: int|
            from <= i < to && (#[trigger] v.parts[i]) is None && v.hashmap[i] is Some
                && v.hashmap[i]->0@ == crate::resource::outbound::nth_hash(
                missing_hashes(v, from, to),
                0,
                k,
            ),
    decreases to - from,
{
    let all = missing_hashes(v, from, to);
    if from < to {
        missing_is_short(v, from, to - 1);
        let before = missing_hashes(v, from, to - 1);
        if 4 * k + 4 <= before.len() {
            arrived_parts_are_not_named(v, from, to - 1, k);
            assert(crate::resource::outbound::nth_hash(all, 0, k)
                =~= crate::resource::outbound::nth_hash(before, 0, k));
        } else {
            assert(v.parts[to - 1] is None);
            assert(before.len() == 4 * k);
            assert(crate::resource::outbound::nth_hash(all, 0, k) =~= v.hashmap[to - 1]->0@);
        }
    }
}

/// A segment of the map fills its 74 places, or as many as it has hashes for, and leaves all others;
/// one that has none fails the transfer.
pub proof fn map_segments_fill_their_places(v: IncomingView, segment: nat, hashes: Seq<u8>, i: int)
    requires
        receiver_wf(v),
        v.status != ResourceStatus::Failed,
        segment <= v.total_parts / 74 + 1,
        0 <= i < v.total_parts,
    ensures
        ({
            let after = after_hashmap(v, segment, hashes);
            let count = hashes.len() as int / 4;
            &&& i < segment * 74 || i >= segment * 74 + count ==> after.hashmap[i] == v.hashmap[i]
            &&& segment * 74 <= i < segment * 74 + count ==> after.hashmap[i] == Some(
                four_bytes(hashes.subrange(4 * (i - segment * 74), 4 * (i - segment * 74) + 4)),
            )
            &&& count >= 1 ==> after.status == ResourceStatus::Transferring
                && !after.waiting_for_hmu
            &&& count < 1 ==> after.status == ResourceStatus::Failed
            &&& after.hashmap.len() == v.hashmap.len()
            &&& after.parts == v.parts
        }),
{
}

/// A segment beyond the map leaves it as it is.
pub proof fn segments_beyond_the_map_are_ignored(v: IncomingView, segment: nat, hashes: Seq<u8>)
    requires
        receiver_wf(v),
        v.status != ResourceStatus::Failed,
        segment > v.total_parts / 74 + 1,
    ensures
        after_hashmap(v, segment, hashes) == (IncomingView {
            status: ResourceStatus::Transferring,
            ..v
        }),
{
}

/// A sender starts with nothing sent, not yet offered, and with four advertisements to go. Its hash
/// is that of the segment and the salt, and the proof it expects that of the segment and the hash;
/// each part is found by the hash of the part and the salt.
pub proof fn senders_start_with_nothing_sent(
    p: PendingSegment,
    sealed: Seq<u8>,
    link: Link,
    now: u64,
    v: OutgoingView,
    i: int,
)
    requires
        sealed_sender(p, sealed, link, now, v),
        0 <= i < v.part_hashes.len(),
    ensures
        v.status == ResourceStatus::Idle,
        v.link_id == link.id,
        v.hash@ == sha256_digest(p.segment() + p.random_hash@),
        v.truncated_hash@ == v.hash@.subrange(0, 16),
        v.expected_proof@ == sha256_digest(p.segment() + v.hash@),
        p.original_hash is None ==> v.original_hash == v.hash,
        p.original_hash is Some ==> v.original_hash == p.original_hash->0,
        v.encrypted,
        v.compressed == p.compressed,
        v.total_size == p.stream@.len(),
        v.size == sealed.len(),
        v.random_hash == p.random_hash,
        v.has_metadata == p.has_metadata && v.metadata_size == p.metadata_size,
        v.segment_index == p.segment_index && v.total_segments == p.total_segments,
        v.request_id == p.request_id && v.is_response == p.is_response,
        v.sdu == part_size(link),
        v.parts == crate::resource::segment::chunks(sealed, part_size(link) as nat),
        v.original_stream == p.stream@ && v.auto_compress == p.auto_compress,
        v.requested_timeout == p.timeout,
        p.timeout is Some ==> v.timeout == p.timeout->0,
        p.timeout is None ==> v.timeout == link.rtt * 6 + 11_250_000_000,
        v.receiver_min_consecutive_height == 0,
        v.last_activity == now && v.last_part_sent == 0,
        v.sent_parts == 0,
        v.retries_left == 4,
        v.adv_sent is None,
        v.rtt is None,
        v.timeout_factor == 6,
        v.sender_grace_time == 10_000_000_000,
        v.part_hashes[i]@ == sha256_digest(
            crate::resource::segment::chunk(sealed, part_size(link) as nat, i) + p.random_hash@,
        ).subrange(0, 4),
{
    let hashes = crate::resource::outbound::map_hashes(
        sealed,
        part_size(link) as nat,
        p.random_hash@,
    );
    assert(hashes.len() == v.part_hashes.len());
    assert(hashes[i] == v.part_hashes[i]@);
}

/// An advertisement says what is sent; it carries the map hashes of the first 74 parts, or of all.
pub proof fn advertisements_say_what_is_sent(v: OutgoingView)
    ensures
        ({
            let a = advertisement_view(v);
            &&& a.hash == v.hash@ && a.original_hash == v.original_hash@ && a.random_hash
                == v.random_hash@
            &&& a.transfer_size == v.size && a.data_size == v.total_size
            &&& a.parts == v.parts.len()
            &&& a.segment_index == v.segment_index && a.total_segments == v.total_segments
            &&& v.part_hashes.len() == v.parts.len() ==> a.hashmap.len() == 4 * (if v.parts.len()
                < 74 {
                v.parts.len()
            } else {
                74
            })
        }),
{
    if v.part_hashes.len() == v.parts.len() {
        let n = if v.parts.len() < 74 {
            v.parts.len() as int
        } else {
            74
        };
        crate::resource::outbound::flat_len(v.part_hashes.take(n));
    }
}

/// The proof of a resource is its hash, and the hash of the data behind it.
pub proof fn proofs_hash_data_and_hash(hash: Seq<u8>, data: Seq<u8>)
    ensures
        proof_payload(hash, data) == hash + sha256_digest(data + hash),
{
}

/// A stream that was sent in the clear is taken as it arrived; one that was sealed is what the link
/// makes of it.
pub proof fn sealed_streams_are_unsealed(v: IncomingView, unsealed: Option<Seq<u8>>)
    ensures
        v.encrypted ==> unsealed_stream(v, unsealed) == unsealed,
        !v.encrypted ==> unsealed_stream(v, unsealed) == Some(received_stream(v.parts)),
{
}

/// Streams up to 1048575 bytes go in one segment; longer ones in segments of that length, of which
/// the last may be shorter.
pub proof fn long_streams_are_split(stream: Seq<u8>, index: nat)
    requires
        1 <= index <= segment_count(stream.len()),
    ensures
        stream.len() <= 1048575 ==> segment_count(stream.len()) == 1,
        stream.len() > 1048575 ==> segment_count(stream.len()) >= 2,
        index < segment_count(stream.len()) ==> segment_bytes(stream, index).len() == 1048575,
        segment_bytes(stream, index).len() <= 1048575,
        stream.len() > 0 ==> segment_bytes(stream, index).len() > 0,
        segment_bytes(stream, index) == stream.subrange(
            (index - 1) * 1048575,
            (index - 1) * 1048575 + segment_bytes(stream, index).len(),
        ),
{
    crate::resource::manager_laws::parts_hold_the_data(stream.len(), 1048575);
    crate::resource::segment::segment_in_bounds(stream.len(), index);
    let n = part_count(stream.len(), 1048575);
    assert((stream.len() + 1048575 - 1) / 1048575 == n);
}

/// The progress of a split resource counts the segments before as whole, and this one by its parts:
/// it goes up with the parts, from one segment to the next, and ends at the whole.
pub proof fn split_progress_goes_up(done: int, parts: int, index: int, count: int, full: int)
    requires
        0 <= done <= parts,
        0 < parts <= full,
        1 <= index <= count,
    ensures
        ({
            let (now, all) = segment_progress(done, parts, index, count, full);
            &&& 0 <= now <= all
            &&& all > 0
            &&& done < parts ==> now < segment_progress(done + 1, parts, index, count, full).0
            &&& done == parts && index == count ==> now == all
            &&& done == parts && index < count ==> now == segment_progress(
                0,
                parts,
                index + 1,
                count,
                full,
            ).0
            &&& done == 0 && index == 1 ==> now == 0
        }),
{
    assert(0 <= (index - 1) * full <= (count - 1) * full) by (nonlinear_arith)
        requires
            1 <= index <= count,
            full > 0,
    ;
    assert((index - 1) * full + full == index * full) by (nonlinear_arith);
    assert((count - 1) * full + full == count * full) by (nonlinear_arith);
    assert(index < count ==> index * full <= (count - 1) * full) by (nonlinear_arith)
        requires
            full > 0,
    ;
    if parts < full {
        let a = (index - 1) * full;
        let c = count * full;
        assert(a * parts + done * full <= c * parts && a * parts >= 0 && done * full >= 0 && c
            * parts > 0) by (nonlinear_arith)
            requires
                0 <= a,
                a + full <= c,
                0 <= done <= parts,
                0 < parts < full,
        ;
        assert((done + 1) * full == done * full + full) by (nonlinear_arith);
        assert(done == parts ==> a * parts + done * full == (a + full) * parts)
            by (nonlinear_arith);
        assert(0 * full == 0 && 0 * parts == 0);
    }
}

/// A request for more of the map moves the reach of the sender: parts more than 76 before the end of
/// the receiver's map are no longer looked at.
pub proof fn map_requests_move_the_reach(v: OutgoingView, data: Seq<u8>, now: u64)
    requires
        data.len() >= 37,
        data[0] == 0xff,
        0 <= map_reach(v, data) <= usize::MAX,
    ensures
        ({
            let reach = map_reach(v, data);
            let after = after_request(v, data, now).0;
            &&& reach >= 76 ==> after.receiver_min_consecutive_height == reach - 76
            &&& reach < 76 ==> after.receiver_min_consecutive_height == 0
        }),
{
}

/// A receiver says of its resource what the advertisement said, with the map hashes that it has of
/// the first 74 parts.
pub proof fn receivers_repeat_the_advertisement(
    a: AdvertisementView,
    link: Link,
    now: u64,
    v: IncomingView,
)
    requires
        accepted(a, link, now, v),
    ensures
        ({
            let said = crate::resource::inbound::receiver_advertisement(v);
            &&& said.transfer_size == a.transfer_size && said.data_size == a.data_size
            &&& said.hash == a.hash && said.random_hash == a.random_hash && said.original_hash
                == a.original_hash
            &&& said.segment_index == a.segment_index && said.total_segments == a.total_segments
            &&& said.request_id == a.request_id
            &&& said.parts == v.total_parts
            &&& (said.flags & 1 != 0) == (a.flags & 1 != 0)
            &&& (said.flags & 2 != 0) == (a.flags & 2 != 0)
            &&& (said.flags & 4 != 0) == (a.flags & 4 != 0)
            &&& (said.flags & 32 != 0) == (a.flags & 32 != 0)
            &&& (said.flags & 16 != 0) == (a.request_id is Some && a.flags & 16 != 0)
            &&& (said.flags & 8 != 0) == (a.request_id is Some && a.flags & 16 == 0)
        }),
{
    crate::resource::outbound::flag_bits_independent(
        v.encrypted,
        v.compressed,
        v.split,
        v.has_metadata,
        v.request_id is Some,
        v.is_response,
    );
}

/// A resource is assembled once: parts that come again do not start it anew.
pub proof fn resources_are_assembled_once(
    v: IncomingView,
    data: Seq<u8>,
    link_rtt: u64,
    now: u64,
)
    requires
        v.assembled is Some,
    ensures
        !after_part(v, data, link_rtt, now).2,
        after_part(v, data, link_rtt, now).0.assembled == v.assembled,
{
}

} // verus!
