//! What holds of a transfer as a whole: sender and receiver side by side.

use vstd::prelude::*;

use crate::error::RnsError;
use crate::hash::sha256_digest;
use crate::link::{sealed_packet, Link, LinkPacketView};
use crate::msgpack;
use crate::packet::PacketContext;
use crate::resource::advertisement::{
    packable, packed, unpack_inverts_pack, unpacked, COLLISION_GUARD_SIZE, HASHMAP_MAX_LEN,
};
use crate::resource::inbound::{
    accepted, after_assembly, after_hashmap, after_hashmap_packet, after_part,
    after_receiver_check, after_request_next, count_present_bound, expected_rate, first_match,
    four_bytes_of, grown_window, hashmap_payload, map_gap, measured_rate, missing_hashes,
    noticed_part, overdue, proof_payload, received_stream, receiver_wf, request_payload,
    request_start, request_stop, run_end, run_end_bound, shrunk_window, stored_part, window_end,
    window_start, IncomingView,
};
use crate::resource::outbound::{
    advertisement_view, collides, count_set_bound, first_hashes, flag_bits_independent, flat,
    flat_len, hashmap_packet, is_served, map_hashes, map_segment, nth_hash, part_size,
    request_hash_at, sealed_sender, search_end, sender_wf, OutgoingView, PendingSegment,
};
use crate::resource::assembly::absorbed;
use crate::resource::manager::SplitView;
use crate::resource::segment::{
    first_segments, segment_count, chunks, chunks_partition_stream, joined, leading_metadata,
    metadata_blob, metadata_round_trip, segment_bytes, segment_in_bounds, some_part,
};
use crate::resource::{part_count, ResourceStatus, MAX_EFFICIENT_SIZE};

verus! {

/// A receiver that accepts a sender's advertisement agrees with the sender on everything that the
/// transfer depends on.
pub proof fn acceptance_agrees(
    s: OutgoingView,
    sealed: Seq<u8>,
    pending: PendingSegment,
    sender_link: Link,
    sent: u64,
    receiver_link: Link,
    now: u64,
    v: IncomingView,
)
    requires
        sender_wf(s),
        sealed_sender(pending, sealed, sender_link, sent, s),
        sealed.len() <= MAX_EFFICIENT_SIZE * 3,
        sealed.len() > 0,
        part_size(receiver_link) == s.sdu,
        unpacked(packed(advertisement_view(s))) is Some ==> accepted(
            unpacked(packed(advertisement_view(s)))->0,
            receiver_link,
            now,
            v,
        ),
    ensures
        unpacked(packed(advertisement_view(s))) == Some(advertisement_view(s)),
        v.hash@ == s.hash@,
        v.original_hash@ == s.original_hash@,
        v.random_hash@ == s.random_hash@,
        v.encrypted,
        v.compressed == s.compressed,
        v.split == s.split,
        v.has_metadata == s.has_metadata,
        v.segment_index == s.segment_index,
        v.total_segments == s.total_segments,
        v.total_parts == s.parts.len(),
        v.is_response == (s.request_id is Some && s.is_response),
{
    let a = advertisement_view(s);
    flat_len(s.part_hashes.take(first_hashes(s.parts.len())));
    crate::resource::inbound::part_count_bound(sealed.len(), s.sdu as nat);
    assert(packable(a));
    unpack_inverts_pack(a);
    flag_bits_independent(
        s.encrypted,
        s.compressed,
        s.split,
        s.has_metadata,
        s.request_id is Some,
        s.is_response,
    );
    some_part(sealed.len(), s.sdu as nat);
}

/// When every slot of the receiver holds the sender's part, what the receiver hands to the link
/// is what the sender's link sealed.
pub proof fn parts_recover_stream(parts: Seq<Option<Seq<u8>>>, sealed: Seq<u8>, sdu: nat)
    requires
        sdu > 0,
        parts.len() == part_count(sealed.len(), sdu),
        forall|i: int|
            0 <= i < parts.len() ==> (#[trigger] parts[i]) == Some(chunks(sealed, sdu)[i]),
    ensures
        received_stream(parts) == sealed,
{
    chunks_partition_stream(sealed, sdu);
    all_present_stream(parts, chunks(sealed, sdu));
}

/// A stream of parts that are all present is those parts one behind the other.
proof fn all_present_stream(parts: Seq<Option<Seq<u8>>>, all: Seq<Seq<u8>>)
    requires
        parts.len() == all.len(),
        forall|i: int| 0 <= i < parts.len() ==> (#[trigger] parts[i]) == Some(all[i]),
    ensures
        received_stream(parts) == joined(all),
    decreases parts.len(),
{
    if parts.len() > 0 {
        let head = parts.drop_last();
        assert forall|i: int| 0 <= i < head.len() implies (#[trigger] head[i]) == Some(
            all.drop_last()[i],
        ) by {
            assert(parts[i] == Some(all[i]));
        }
        all_present_stream(head, all.drop_last());
        assert(parts[parts.len() - 1] == Some(all[all.len() - 1]));
    }
}

/// Assembling what the sender sealed gives the segment back, without the metadata at the head of
/// a first segment, and records the whole segment.
pub proof fn assembly_recovers_segment(
    pending: PendingSegment,
    v: IncomingView,
    max_size: usize,
)
    requires
        pending.wf(),
        v.encrypted,
        v.compressed == pending.compressed,
        v.random_hash@ == pending.random_hash@,
        v.hash@ == sha256_digest(pending.segment() + pending.random_hash@),
        v.has_metadata == pending.has_metadata,
        v.segment_index == pending.segment_index,
        pending.segment().len() <= max_size,
        pending.has_metadata && pending.segment_index == 1 ==> leading_metadata(pending.segment())
            is Some,
    ensures
        ({
            let (after, result) = after_assembly(v, Some(pending.plain()), max_size);
            &&& after.assembled == Some(pending.segment())
            &&& after.status == v.status
            &&& result is Ok
            &&& pending.has_metadata && pending.segment_index == 1 ==> after.metadata == Some(
                (leading_metadata(pending.segment())->0).0,
            ) && result->Ok_0 == pending.segment().skip(
                (leading_metadata(pending.segment())->0).1 as int,
            )
            &&& !(pending.has_metadata && pending.segment_index == 1) ==> result->Ok_0
                == pending.segment() && after.metadata == v.metadata
        }),
{
    let plain = pending.plain();
    assert(plain.skip(4) =~= pending.prepared@);
    if pending.compressed {
        crate::compress::compression_round_trip(
            pending.segment(),
            pending.prepared@,
            max_size,
        );
    }
}

/// The metadata in front of a stream is in reach of its first segment whenever it fits one.
pub proof fn first_segment_holds_metadata(metadata: Seq<u8>, data: Seq<u8>)
    requires
        3 + metadata.len() <= MAX_EFFICIENT_SIZE,
    ensures
        ({
            let stream = metadata_blob(Some(metadata)) + data;
            leading_metadata(segment_bytes(stream, 1)) == Some((metadata, 3 + metadata.len()))
        }),
{
    let blob = metadata_blob(Some(metadata));
    let stream = blob + data;
    metadata_round_trip(metadata, data);
    let first = segment_bytes(stream, 1);
    if stream.len() > MAX_EFFICIENT_SIZE {
        some_part(stream.len(), MAX_EFFICIENT_SIZE as nat);
    }
    segment_in_bounds(stream.len(), 1);
    assert(crate::resource::segment::segment_start(stream.len(), 1) == 0) by (nonlinear_arith)
        requires
            crate::resource::segment::segment_start(stream.len(), 1) == (1 - 1)
                * MAX_EFFICIENT_SIZE,
    ;
    let tail = first.skip(blob.len() as int);
    assert(first =~= blob + tail);
    metadata_round_trip(metadata, tail);
}

/// The proof that a receiver sends for the sender's segment is the one the sender expects.
pub proof fn proof_is_accepted(
    pending: PendingSegment,
    sealed: Seq<u8>,
    link: Link,
    now: u64,
    s: OutgoingView,
)
    requires
        sealed_sender(pending, sealed, link, now, s),
    ensures
        proof_payload(s.hash@, pending.segment()).len() == 64,
        proof_payload(s.hash@, pending.segment()).subrange(0, 32) == s.hash@,
        proof_payload(s.hash@, pending.segment()).subrange(32, 64) == s.expected_proof@,
{
    let payload = proof_payload(s.hash@, pending.segment());
    assert(payload.subrange(0, 32) =~= s.hash@);
    assert(payload.subrange(32, 64) =~= s.expected_proof@);
}

/// All parts are present once a part completes the transfer.
pub proof fn completion_means_all_parts(
    v: IncomingView,
    data: Seq<u8>,
    link_rtt: u64,
    now: u64,
    after: IncomingView,
)
    requires
        after == after_part(v, data, link_rtt, now).0,
        after_part(v, data, link_rtt, now).2,
        receiver_wf(after),
    ensures
        after.status == ResourceStatus::Assembling,
        forall|i: int| 0 <= i < after.parts.len() ==> (#[trigger] after.parts[i]) is Some,
{
    count_present_bound(after.parts);
}

/// A failed receiver stays as it is and sends nothing, whatever arrives.
pub proof fn failed_receiver_is_inert(
    v: IncomingView,
    data: Seq<u8>,
    segment: nat,
    link: Link,
    now: u64,
)
    requires
        v.status == ResourceStatus::Failed,
    ensures
        after_part(v, data, link.rtt, now) == (v, Seq::<LinkPacketView>::empty(), false),
        after_hashmap(v, segment, data) == v,
        after_hashmap_packet(v, data, now) == v,
        after_request_next(v, now) == (v, Seq::<LinkPacketView>::empty()),
        after_receiver_check(v, link, now) == (v, Seq::<LinkPacketView>::empty(), false),
{
}

/// What a request that does not ask for more of the map asks for first: the first part that has
/// not arrived.
pub open spec fn asks_for_first_missing(
    v: IncomingView,
    after: IncomingView,
    packets: Seq<LinkPacketView>,
) -> bool {
    let first = run_end(v.parts, 0);
    let missing = missing_hashes(v, first, request_stop(v));
    packets.len() == 1 && !after.waiting_for_hmu ==> {
        &&& first < request_stop(v)
        &&& v.hashmap[first] is Some
        &&& missing.len() >= 4
        &&& missing.subrange(0, 4) == v.hashmap[first]->0@
        &&& packets[0] == sealed_packet(
            PacketContext::ResourceRequest,
            request_payload(None, v.hash@, missing),
        )
    }
}

/// The missing map hashes of a range start with that of its first part, if that is missing.
proof fn first_missing_leads(v: IncomingView, from: int, to: int)
    requires
        from < to,
        v.parts[from] is None,
        v.hashmap[from] is Some,
    ensures
        missing_hashes(v, from, to).len() >= 4,
        missing_hashes(v, from, to).subrange(0, 4) == v.hashmap[from]->0@,
    decreases to - from,
{
    if from + 1 < to {
        first_missing_leads(v, from, to - 1);
        let head = missing_hashes(v, from, to - 1);
        assert(missing_hashes(v, from, to).subrange(0, 4) =~= head.subrange(0, 4));
    } else {
        assert(missing_hashes(v, from, from) =~= Seq::<u8>::empty());
        assert(missing_hashes(v, from, to) =~= v.hashmap[from]->0@);
        assert(missing_hashes(v, from, to).subrange(0, 4) =~= v.hashmap[from]->0@);
    }
}

/// Where the map runs out in a range, it does so at a missing part.
proof fn gap_in_range(v: IncomingView, from: int, to: int)
    requires
        from <= to,
    ensures
        from <= map_gap(v, from, to) <= to,
        from < to && v.parts[from] is None ==> (map_gap(v, from, to) == from <==> v.hashmap[from]
            is None),
    decreases to - from,
{
    if from < to {
        gap_in_range(v, from + 1, to);
    }
}

/// Whatever order the parts arrive in, the first missing one is always asked for again: nothing
/// before the point where a request starts is missing, the part at that point is, and a request
/// either names it first or asks for more of the map.
pub proof fn request_covers_first_missing(v: IncomingView, now: u64)
    requires
        receiver_wf(v),
        v.window >= 1,
        v.received_count < v.total_parts,
    ensures
        0 <= request_start(v) < v.parts.len(),
        v.parts[request_start(v)] is None,
        forall|i: int| 0 <= i < request_start(v) ==> (#[trigger] v.parts[i]) is Some,
        asks_for_first_missing(v, after_request_next(v, now).0, after_request_next(v, now).1),
{
    run_end_bound(v.parts, 0);
    count_present_bound(v.parts);
    let first = run_end(v.parts, 0);
    gap_in_range(v, first, request_stop(v));
    if v.hashmap[first] is Some {
        first_missing_leads(v, first, request_stop(v));
    }
}

/// A receiver whose answer is overdue asks again while it has retries left, for the first missing
/// part first.
pub proof fn overdue_receiver_asks_again(v: IncomingView, link: Link, now: u64)
    requires
        receiver_wf(v),
        v.status == ResourceStatus::Transferring,
        v.window_min >= 1,
        v.window >= 1,
        v.received_count < v.total_parts,
        v.retries_left > 0,
        overdue(
            (IncomingView { eifr: Some(expected_rate(v, link)), ..v }),
            expected_rate(v, link),
            now,
        ),
    ensures
        ({
            let shrunk = shrunk_window(v);
            let (after, packets, failed) = after_receiver_check(v, link, now);
            &&& !failed
            &&& after.status == ResourceStatus::Failed || packets.len() == 1
            &&& asks_for_first_missing(shrunk, after, packets)
        }),
{
    let w = IncomingView { eifr: Some(expected_rate(v, link)), ..v };
    let x = IncomingView {
        retries_left: (v.retries_left - 1) as usize,
        waiting_for_hmu: false,
        ..shrunk_window(w)
    };
    request_covers_first_missing(x, now);
    same_missing(x, shrunk_window(v), request_start(x), request_stop(x));
}

/// What is missing depends on the parts and the map only.
proof fn same_missing(v: IncomingView, w: IncomingView, from: int, to: int)
    requires
        v.parts == w.parts,
        v.hashmap == w.hashmap,
    ensures
        missing_hashes(v, from, to) == missing_hashes(w, from, to),
    decreases to - from,
{
    if from < to {
        same_missing(v, w, from, to - 1);
    }
}

/// A part never replaces one that has arrived, and no slot is emptied.
pub proof fn arrived_parts_stay(v: IncomingView, data: Seq<u8>, i: int)
    requires
        receiver_wf(v),
        0 <= i < v.parts.len(),
        v.parts[i] is Some,
    ensures
        stored_part(v, data).parts[i] == v.parts[i],
        stored_part(v, data).parts.len() == v.parts.len(),
{
    slot_in_window(
        v.hashmap,
        crate::resource::part_map_hash(data, v.random_hash@),
        window_start(v),
        window_end(v),
    );
}

/// A slot is looked for in the window only.
proof fn slot_in_window(map: Seq<Option<[u8; 4]>>, mh: Seq<u8>, from: int, to: int)
    ensures
        from <= to ==> from <= first_match(map, mh, from, to) <= to,
        from > to ==> first_match(map, mh, from, to) == to,
    decreases to - from,
{
    if from < to {
        slot_in_window(map, mh, from + 1, to);
    }
}

/// The map hash of entry `i` of a hashmap is found at byte `4 * i`.
pub proof fn flat_entry(hashes: Seq<[u8; 4]>, i: int)
    requires
        0 <= i < hashes.len(),
    ensures
        flat(hashes).len() == 4 * hashes.len(),
        flat(hashes).subrange(4 * i, 4 * i + 4) == hashes[i]@,
    decreases hashes.len(),
{
    flat_len(hashes);
    flat_len(hashes.drop_last());
    if i == hashes.len() - 1 {
        assert(flat(hashes).subrange(4 * i, 4 * i + 4) =~= hashes[i]@);
    } else {
        flat_entry(hashes.drop_last(), i);
        assert(flat(hashes).subrange(4 * i, 4 * i + 4) =~= flat(hashes.drop_last()).subrange(
            4 * i,
            4 * i + 4,
        ));
    }
}

/// A hashmap segment that the sender packs fills the receiver's map with the sender's map hashes.
pub proof fn hashmap_reaches_receiver(
    v: IncomingView,
    hashes: Seq<[u8; 4]>,
    segment: nat,
    i: int,
)
    requires
        v.status != ResourceStatus::Failed,
        segment <= v.hashmap.len() / HASHMAP_MAX_LEN as nat + 1,
        0 <= i < hashes.len(),
        segment * HASHMAP_MAX_LEN + i < v.hashmap.len(),
    ensures
        after_hashmap(v, segment, flat(hashes)).hashmap[segment * HASHMAP_MAX_LEN + i] == Some(
            hashes[i],
        ),
{
    flat_entry(hashes, i);
    four_bytes_of(hashes[i]);
}

/// A hashmap update is read back as the segment number and the map hashes that the sender packed.
pub proof fn hashmap_packet_read_back(s: OutgoingView, reach: int)
    requires
        0 <= reach < s.parts.len(),
        s.parts.len() == s.part_hashes.len(),
        s.parts.len() <= usize::MAX,
    ensures
        hashmap_packet(s, reach).data.subrange(0, 32) == s.hash@,
        hashmap_payload(hashmap_packet(s, reach).data.skip(32)) == Some(
            ((reach / HASHMAP_MAX_LEN as int) as nat, flat(map_segment(s, reach))),
        ),
{
    let number = (reach / HASHMAP_MAX_LEN as int) as nat;
    let hashes = flat(map_segment(s, reach));
    flat_len(map_segment(s, reach));
    let data = hashmap_packet(s, reach).data;
    assert(data.subrange(0, 32) =~= s.hash@);
    let payload = data.skip(32);
    let tail = msgpack::bin_encoding(hashes);
    assert(payload =~= seq![0x92u8] + msgpack::uint_encoding(number) + tail);
    assert(payload.skip(1) =~= msgpack::uint_encoding(number) + tail);
    assert(number <= reach) by (nonlinear_arith)
        requires
            number == reach / HASHMAP_MAX_LEN as int,
            HASHMAP_MAX_LEN == 74,
            reach >= 0,
    ;
    msgpack::uint_round_trip(number, tail);
    assert(payload.skip(1).skip(msgpack::uint_encoding(number).len() as int) =~= tail);
    assert(tail + Seq::<u8>::empty() =~= tail);
    msgpack::bin_round_trip(hashes, Seq::empty());
}

/// The map hash of a missing part is among those that are asked for.
proof fn missing_is_listed(v: IncomingView, from: int, to: int, i: int)
    requires
        0 <= from <= i < to,
        v.parts[i] is None,
        v.hashmap[i] is Some,
    ensures
        exists|k: int|
            0 <= k && 4 * k + 4 <= missing_hashes(v, from, to).len() && #[trigger] nth_hash(
                missing_hashes(v, from, to),
                0,
                k,
            ) == v.hashmap[i]->0@,
        missing_hashes(v, from, to).len() % 4 == 0,
    decreases to - from,
{
    let all = missing_hashes(v, from, to);
    let head = missing_hashes(v, from, to - 1);
    head_is_whole(v, from, to - 1);
    if i == to - 1 {
        let k = head.len() as int / 4;
        assert(nth_hash(all, 0, k) =~= v.hashmap[i]->0@);
    } else {
        missing_is_listed(v, from, to - 1, i);
        let k = choose|k: int|
            0 <= k && 4 * k + 4 <= head.len() && #[trigger] nth_hash(head, 0, k)
                == v.hashmap[i]->0@;
        assert(nth_hash(all, 0, k) =~= nth_hash(head, 0, k));
    }
}

proof fn head_is_whole(v: IncomingView, from: int, to: int)
    ensures
        missing_hashes(v, from, to).len() % 4 == 0,
    decreases to - from,
{
    if from < to {
        head_is_whole(v, from, to - 1);
    }
}

/// Every missing part that a receiver asks for and that the sender has in reach is sent: the
/// request names its map hash, and the sender serves it.
pub proof fn requested_part_is_served(
    v: IncomingView,
    s: OutgoingView,
    last: Option<Seq<u8>>,
    from: int,
    to: int,
    i: int,
)
    requires
        0 <= from <= i < to <= v.parts.len(),
        v.parts[i] is None,
        v.hashmap[i] == Some(s.part_hashes[i]),
        last is Some ==> last->0.len() == 4,
        s.receiver_min_consecutive_height <= i < search_end(s),
    ensures
        is_served(s, request_payload(last, v.hash@, missing_hashes(v, from, to)), i),
{
    let missing = missing_hashes(v, from, to);
    let data = request_payload(last, v.hash@, missing);
    let at = request_hash_at(data) + 32;
    missing_is_listed(v, from, to, i);
    let k = choose|k: int|
        0 <= k && 4 * k + 4 <= missing.len() && #[trigger] nth_hash(missing, 0, k)
            == v.hashmap[i]->0@;
    assert(nth_hash(data, at, k) =~= nth_hash(missing, 0, k));
}

/// A receiver holds nothing but what was sent: the map hashes it knows are those of the parts of
/// the sealed stream, and each slot is empty or holds its part.
pub open spec fn holds_only_sent(v: IncomingView, sealed: Seq<u8>, sdu: nat) -> bool {
    &&& v.total_parts == part_count(sealed.len(), sdu)
    &&& forall|i: int|
        0 <= i < v.hashmap.len() && (#[trigger] v.hashmap[i]) is Some ==> v.hashmap[i]->0@
            == map_hashes(sealed, sdu, v.random_hash@)[i]
    &&& forall|i: int|
        0 <= i < v.parts.len() && (#[trigger] v.parts[i]) is Some ==> v.parts[i] == Some(
            chunks(sealed, sdu)[i],
        )
}

/// A hashmap segment of the sender leaves a receiver with nothing but what was sent.
pub proof fn sent_hashes_are_taken(v: IncomingView, s: OutgoingView, sealed: Seq<u8>, segment: nat)
    requires
        receiver_wf(v),
        v.status != ResourceStatus::Failed,
        holds_only_sent(v, sealed, s.sdu as nat),
        v.random_hash@ == s.random_hash@,
        s.parts.len() == v.total_parts,
        s.part_hashes.map_values(|h: [u8; 4]| h@) == map_hashes(
            sealed,
            s.sdu as nat,
            s.random_hash@,
        ),
        segment * HASHMAP_MAX_LEN < s.parts.len(),
    ensures
        holds_only_sent(
            after_hashmap(v, segment, flat(map_segment(s, segment * HASHMAP_MAX_LEN))),
            sealed,
            s.sdu as nat,
        ),
{
    let at = segment * HASHMAP_MAX_LEN;
    let hashes = map_segment(s, at);
    let w = after_hashmap(v, segment, flat(hashes));
    let all = map_hashes(sealed, s.sdu as nat, s.random_hash@);
    let values = s.part_hashes.map_values(|h: [u8; 4]| h@);
    assert(values.len() == s.part_hashes.len());
    assert(values == all);
    flat_len(hashes);
    assert forall|i: int|
        0 <= i < w.hashmap.len() && (#[trigger] w.hashmap[i]) is Some implies w.hashmap[i]->0@
        == all[i] by {
        if w.hashmap[i] == v.hashmap[i] {
        } else {
            assert(at <= i < at + hashes.len());
            flat_entry(hashes, i - at);
            four_bytes_of(hashes[i - at]);
            assert(values[i] == s.part_hashes[i]@);
        }
    }
}

/// The search for a map hash finds the only entry that has it.
proof fn only_match(map: Seq<Option<[u8; 4]>>, mh: Seq<u8>, from: int, to: int, i: int)
    requires
        0 <= from <= to <= map.len(),
        forall|j: int|
            from <= j < to && j != i && (#[trigger] map[j]) is Some ==> map[j]->0@ != mh,
    ensures
        from <= i < to && map[i] is Some && map[i]->0@ == mh ==> first_match(map, mh, from, to)
            == i,
        first_match(map, mh, from, to) == i || first_match(map, mh, from, to) == to,
    decreases to - from,
{
    if from < to {
        only_match(map, mh, from + 1, to, i);
    }
}

/// A part of the sender goes to its own slot: the receiver holds nothing but what was sent
/// afterwards, and where the part is in the window and its map hash is known, it holds the part.
/// (The map hashes of the sender's parts differ within the guarded distance, so this is said of
/// parts no farther than that from any slot of the window.)
pub proof fn sent_part_finds_its_slot(
    v: IncomingView,
    sealed: Seq<u8>,
    sdu: nat,
    i: int,
    link_rtt: u64,
    now: u64,
)
    requires
        receiver_wf(v),
        v.status != ResourceStatus::Failed,
        holds_only_sent(v, sealed, sdu),
        !collides(map_hashes(sealed, sdu, v.random_hash@)),
        0 <= i < v.total_parts,
        window_end(v) - 1 - COLLISION_GUARD_SIZE <= i <= window_start(v) + COLLISION_GUARD_SIZE,
    ensures
        holds_only_sent(
            after_part(v, chunks(sealed, sdu)[i], link_rtt, now).0,
            sealed,
            sdu,
        ),
        window_start(v) <= i < window_end(v) && v.hashmap[i] is Some ==> after_part(
            v,
            chunks(sealed, sdu)[i],
            link_rtt,
            now,
        ).0.parts[i] == Some(chunks(sealed, sdu)[i]),
{
    let data = chunks(sealed, sdu)[i];
    let all = map_hashes(sealed, sdu, v.random_hash@);
    let w = noticed_part(v, data.len(), link_rtt, now);
    let mh = crate::resource::part_map_hash(data, v.random_hash@);
    assert(all[i] == mh);
    assert forall|j: int|
        window_start(v) <= j < window_end(v) && j != i && (#[trigger] v.hashmap[j])
            is Some implies v.hashmap[j]->0@ != mh by {
        assert(v.hashmap[j]->0@ == all[j]);
        if all[j] == all[i] {
            assert(collides(all));
        }
    }
    only_match(v.hashmap, mh, window_start(v), window_end(v), i);
}

/// The first missing part, once it arrives, is stored, and the next request starts behind it.
pub proof fn first_missing_part_is_taken(
    v: IncomingView,
    sealed: Seq<u8>,
    sdu: nat,
    link_rtt: u64,
    now: u64,
)
    requires
        receiver_wf(v),
        v.status != ResourceStatus::Failed,
        holds_only_sent(v, sealed, sdu),
        !collides(map_hashes(sealed, sdu, v.random_hash@)),
        2 <= v.window <= COLLISION_GUARD_SIZE,
        v.received_count < v.total_parts,
        v.hashmap[request_start(v)] is Some,
    ensures
        ({
            let first = request_start(v);
            let after = after_part(v, chunks(sealed, sdu)[first], link_rtt, now).0;
            &&& after.parts == v.parts.update(first, Some(chunks(sealed, sdu)[first]))
            &&& after.received_count == v.received_count + 1
            &&& request_start(after) > first
            &&& holds_only_sent(after, sealed, sdu)
        }),
{
    request_covers_first_missing(v, now);
    let first = request_start(v);
    let data = chunks(sealed, sdu)[first];
    let all = map_hashes(sealed, sdu, v.random_hash@);
    let mh = crate::resource::part_map_hash(data, v.random_hash@);
    assert(all[first] == mh);
    assert forall|j: int|
        window_start(v) <= j < window_end(v) && j != first && (#[trigger] v.hashmap[j])
            is Some implies v.hashmap[j]->0@ != mh by {
        assert(v.hashmap[j]->0@ == all[j]);
        if all[j] == all[first] {
            assert(collides(all));
        }
    }
    only_match(v.hashmap, mh, window_start(v), window_end(v), first);
    sent_part_finds_its_slot(v, sealed, sdu, first, link_rtt, now);
    let w = stored_part(noticed_part(v, data.len(), link_rtt, now), data);
    run_end_bound(w.parts, first + 1);
    assert(run_end(w.parts, first) == run_end(w.parts, first + 1));
    assert(w.consecutive_completed_height + 1 > first);
}

/// Once a receiver that holds nothing but what was sent has all parts, what it hands to the link
/// is what the sender's link sealed.
pub proof fn complete_receiver_has_the_stream(
    v: IncomingView,
    sealed: Seq<u8>,
    sdu: nat,
)
    requires
        sdu > 0,
        receiver_wf(v),
        holds_only_sent(v, sealed, sdu),
        v.received_count == v.total_parts,
    ensures
        received_stream(v.parts) == sealed,
{
    count_present_bound(v.parts);
    parts_recover_stream(v.parts, sealed, sdu);
}

/// Two states of a receiver that belong to one transfer: they agree on all that the advertisement
/// has fixed, and on the metadata.
pub open spec fn same_transfer(v: IncomingView, w: IncomingView) -> bool {
    &&& w.link_id == v.link_id
    &&& w.hash == v.hash
    &&& w.original_hash == v.original_hash
    &&& w.random_hash == v.random_hash
    &&& w.size == v.size
    &&& w.total_size == v.total_size
    &&& w.compressed == v.compressed
    &&& w.encrypted == v.encrypted
    &&& w.split == v.split
    &&& w.has_metadata == v.has_metadata
    &&& w.segment_index == v.segment_index
    &&& w.total_segments == v.total_segments
    &&& w.request_id == v.request_id
    &&& w.is_response == v.is_response
    &&& w.sdu == v.sdu
    &&& w.total_parts == v.total_parts
    &&& w.metadata == v.metadata
}

/// Asking for parts does not touch what the advertisement has fixed.
proof fn request_stays(v: IncomingView, now: u64)
    ensures
        same_transfer(v, after_request_next(v, now).0),
{
}

/// A part does not touch what the advertisement has fixed.
proof fn part_stays(v: IncomingView, data: Seq<u8>, link_rtt: u64, now: u64)
    ensures
        same_transfer(v, after_part(v, data, link_rtt, now).0),
{
    let w = stored_part(noticed_part(v, data.len(), link_rtt, now), data);
    assert(same_transfer(v, w));
    let x = measured_rate(grown_window(w), now);
    assert(same_transfer(w, x));
    request_stays(x, now);
}

/// A watchdog pass does not touch what the advertisement has fixed.
proof fn check_stays(v: IncomingView, link: Link, now: u64)
    ensures
        same_transfer(v, after_receiver_check(v, link, now).0),
{
    let w = IncomingView { eifr: Some(expected_rate(v, link)), ..v };
    let x = IncomingView {
        retries_left: (v.retries_left - 1) as usize,
        waiting_for_hmu: false,
        ..shrunk_window(w)
    };
    assert(same_transfer(v, x));
    request_stays(x, now);
}

/// Whatever arrives before all parts are there, and however often the watchdog looks, the transfer
/// stays the one that was accepted.
pub proof fn transfer_stays(
    v: IncomingView,
    data: Seq<u8>,
    segment: nat,
    link: Link,
    link_rtt: u64,
    now: u64,
)
    ensures
        same_transfer(v, after_part(v, data, link_rtt, now).0),
        same_transfer(v, after_hashmap(v, segment, data)),
        same_transfer(v, after_hashmap_packet(v, data, now)),
        same_transfer(v, after_request_next(v, now).0),
        same_transfer(v, after_receiver_check(v, link, now).0),
{
    part_stays(v, data, link_rtt, now);
    request_stays(v, now);
    check_stays(v, link, now);
}

/// The first segment of a stream that fits one is the stream, and otherwise as much of it as a
/// segment holds.
proof fn first_segment(stream: Seq<u8>)
    ensures
        segment_bytes(stream, 1) == (if stream.len() <= MAX_EFFICIENT_SIZE {
            stream
        } else {
            stream.take(MAX_EFFICIENT_SIZE as int)
        }),
{
    if stream.len() > MAX_EFFICIENT_SIZE {
        some_part(stream.len(), MAX_EFFICIENT_SIZE as nat);
    }
    segment_in_bounds(stream.len(), 1);
    assert((1 - 1) * MAX_EFFICIENT_SIZE == 0) by (nonlinear_arith);
    assert(segment_bytes(stream, 1) =~= if stream.len() <= MAX_EFFICIENT_SIZE {
        stream
    } else {
        stream.take(MAX_EFFICIENT_SIZE as int)
    });
}

/// The data of a first segment, without the metadata.
pub open spec fn first_data(metadata: Option<Seq<u8>>, data: Seq<u8>) -> Seq<u8> {
    if metadata_blob(metadata).len() + data.len() <= MAX_EFFICIENT_SIZE {
        data
    } else {
        data.take(MAX_EFFICIENT_SIZE - metadata_blob(metadata).len())
    }
}

/// A first segment is the metadata and the data behind it.
proof fn first_segment_data(metadata: Option<Seq<u8>>, data: Seq<u8>)
    requires
        metadata is Some ==> 3 + metadata->0.len() <= MAX_EFFICIENT_SIZE,
    ensures
        segment_bytes(metadata_blob(metadata) + data, 1).skip(
            metadata_blob(metadata).len() as int,
        ) == first_data(metadata, data),
        metadata is None ==> segment_bytes(metadata_blob(metadata) + data, 1) == first_data(
            metadata,
            data,
        ),
        metadata is Some ==> metadata_blob(metadata).len() == 3 + metadata->0.len(),
{
    let blob = metadata_blob(metadata);
    let stream = blob + data;
    if metadata is Some {
        metadata_round_trip(metadata->0, data);
    }
    first_segment(stream);
    assert(segment_bytes(stream, 1).skip(blob.len() as int) =~= first_data(metadata, data));
    if metadata is None {
        assert(segment_bytes(stream, 1) =~= first_data(metadata, data));
    }
}

/// What is sent is what arrives. A sender prepares a segment of a resource, its link seals it, and
/// it advertises the segment; a receiver accepts the advertisement and stores every part of the
/// sender in its slot. Its link then unseals what was sealed, and assembling gives the segment
/// back: the whole data where the resource fits one segment, with the metadata beside it. The
/// proof that the receiver sends is the one that the sender expects.
///
/// The metadata must fit the first segment.
pub proof fn segment_arrives(
    metadata: Option<Seq<u8>>,
    data: Seq<u8>,
    pending: PendingSegment,
    sealed: Seq<u8>,
    sender_link: Link,
    sent: u64,
    s: OutgoingView,
    receiver_link: Link,
    now: u64,
    start: IncomingView,
    v: IncomingView,
    unseal: spec_fn(Seq<u8>) -> Option<Seq<u8>>,
    max_size: usize,
)
    requires
        pending.wf(),
        pending.stream@ == metadata_blob(metadata) + data,
        pending.has_metadata == metadata is Some,
        metadata is Some ==> 3 + metadata->0.len() <= MAX_EFFICIENT_SIZE,
        sender_wf(s),
        sealed_sender(pending, sealed, sender_link, sent, s),
        0 < sealed.len() <= MAX_EFFICIENT_SIZE * 3,
        part_size(receiver_link) == s.sdu,
        unpacked(packed(advertisement_view(s))) is Some ==> accepted(
            unpacked(packed(advertisement_view(s)))->0,
            receiver_link,
            now,
            start,
        ),
        same_transfer(start, v),
        v.parts.len() == s.parts.len(),
        forall|i: int| 0 <= i < s.parts.len() ==> (#[trigger] v.parts[i]) == Some(s.parts[i]),
        unseal(sealed) == Some(pending.plain()),
        pending.segment().len() <= max_size,
    ensures
        ({
            let (after, result) = after_assembly(v, unseal(received_stream(v.parts)), max_size);
            let stream = metadata_blob(metadata) + data;
            let segment = segment_bytes(stream, pending.segment_index as nat);
            &&& unpacked(packed(advertisement_view(s))) == Some(advertisement_view(s))
            &&& received_stream(v.parts) == sealed
            &&& after.assembled == Some(segment)
            &&& after.status == v.status
            &&& proof_payload(v.hash@, segment).subrange(0, 32) == s.hash@
            &&& proof_payload(v.hash@, segment).subrange(32, 64) == s.expected_proof@
            &&& pending.segment_index > 1 ==> result == Ok::<Seq<u8>, RnsError>(segment)
                && after.metadata is None
            &&& pending.segment_index == 1 ==> result == Ok::<Seq<u8>, RnsError>(
                first_data(metadata, data),
            ) && after.metadata == metadata
        }),
{
    acceptance_agrees(s, sealed, pending, sender_link, sent, receiver_link, now, start);
    parts_recover_stream(v.parts, sealed, s.sdu as nat);
    proof_is_accepted(pending, sealed, sender_link, sent, s);
    first_segment_data(metadata, data);
    if metadata is Some {
        first_segment_holds_metadata(metadata->0, data);
    }
    assembly_recovers_segment(pending, v, max_size);
}

/// A sender awaits the proof exactly when every part has been sent at least once.
pub proof fn all_sent_iff_awaiting(s: OutgoingView)
    requires
        sender_wf(s),
    ensures
        s.sent_parts == s.parts.len() <==> forall|i: int|
            0 <= i < s.parts.len() ==> (#[trigger] s.part_sent[i]),
{
    count_set_bound(s.part_sent);
}

/// A split assembly holds the first `count` segments of a stream, without the `head` bytes of
/// metadata in front of it.
pub open spec fn split_holds(
    assembly: Option<SplitView>,
    stream: Seq<u8>,
    head: int,
    count: nat,
) -> bool {
    match assembly {
        None => count == 0,
        Some(a) => {
            &&& count > 0
            &&& a.data == first_segments(stream, count).skip(head)
            &&& a.next_index == count + 1
            &&& a.total_segments == segment_count(stream.len())
            &&& a.data_size == stream.len()
        },
    }
}

/// A split assembly that holds the first segments of a stream takes the next one in; what it
/// holds after the last one is the data of the stream.
pub proof fn split_takes_next_segment(
    prior: Option<SplitView>,
    v: IncomingView,
    stream: Seq<u8>,
    head: int,
    data: Seq<u8>,
    now: u64,
)
    requires
        0 <= head <= segment_bytes(stream, 1).len(),
        1 <= v.segment_index <= segment_count(stream.len()),
        v.segment_index < usize::MAX,
        split_holds(prior, stream, head, (v.segment_index - 1) as nat),
        v.total_segments == segment_count(stream.len()),
        v.total_size == stream.len(),
        data == (if v.segment_index == 1 {
            segment_bytes(stream, 1).skip(head)
        } else {
            segment_bytes(stream, v.segment_index as nat)
        }),
    ensures
        split_holds(
            absorbed(prior, v, data, now),
            stream,
            head,
            v.segment_index as nat,
        ),
        absorbed(prior, v, data, now) is Some,
        v.segment_index == v.total_segments ==> absorbed(prior, v, data, now)->0.data
            == stream.skip(head),
{
    let k = v.segment_index as nat;
    first_segments_fit(stream, k);
    let after = absorbed(prior, v, data, now)->0;
    if k == 1 {
        reveal_with_fuel(first_segments, 2);
        assert(first_segments(stream, 1) =~= segment_bytes(stream, 1));
        assert(after.data =~= first_segments(stream, 1).skip(head));
    } else {
        first_is_prefix(stream, (k - 1) as nat);
        assert(after.data =~= first_segments(stream, k).skip(head));
    }
    if v.segment_index == v.total_segments {
        crate::resource::segment::segments_partition_stream(stream);
    }
}

/// The first segments are no longer than the stream.
proof fn first_segments_fit(stream: Seq<u8>, count: nat)
    requires
        count <= segment_count(stream.len()),
    ensures
        first_segments(stream, count).len() <= stream.len(),
    decreases segment_count(stream.len()) - count,
{
    if count == segment_count(stream.len()) {
        crate::resource::segment::segments_partition_stream(stream);
    } else {
        first_segments_fit(stream, count + 1);
    }
}

/// The first segments begin with the first one.
proof fn first_is_prefix(stream: Seq<u8>, count: nat)
    requires
        count >= 1,
    ensures
        first_segments(stream, count).len() >= segment_bytes(stream, 1).len(),
    decreases count,
{
    if count > 1 {
        first_is_prefix(stream, (count - 1) as nat);
    } else {
        reveal_with_fuel(first_segments, 2);
    }
}

} // verus!
