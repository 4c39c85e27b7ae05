//! What holds of the resources of a node together: what is admitted, what ends a transfer, and what
//! is handed to the application.

use vstd::prelude::*;

use crate::error::RnsError;
use crate::hash::{sha256_digest, AddressHash};
use crate::link::{Link, LinkId, LinkPacketView, Rate};
use crate::packet::{PacketContext, PacketType};
use crate::resource::admission::{
    admission, known_on_link, rejection, started, taken_on, Admission,
};
use crate::resource::advertisement::{AdvertisementView, ResourceAdvertisement};
use crate::resource::assembly::{
    absorbed, answered_request, assembly_outcome, completed_outcome, find_assembling,
    response_event, retained_response,
};
use crate::resource::inbound::{
    adapted_rtt, after_assembly, after_data, after_hashmap, counted_fast, counted_slow,
    receiver_progress, receiver_wf, IncomingView,
};
use crate::resource::manager::{
    called_for, cancel_events, cancel_step, ended_event, find_receiver, follows, link_busy,
    part_step, proof_events, proof_step, receiver_packets, reject_events, reject_step,
    request_step, sender_packets, stepped_receivers, stepped_senders, RequestEventView,
    ResourceManager, ResourceStrategy, SplitView,
};
use crate::resource::outbound::{
    advertised, advertisement_timeout, after_request, collides, hashmap_packet, map_reach,
    map_segment, part_size, request_hash_at, sender_progress, sender_wf, served, wants_hashmap,
    OutgoingView, PendingSegment,
};
use crate::resource::request::unpacked_response;
use crate::resource::{part_count, Progress, ResourceStatus};

verus! {

/// A resource that carries a request is taken on exactly when it is within the limit for requests
/// and the destination has a handler; otherwise it is turned down. What the link or the application
/// say of resources does not matter.
pub proof fn requests_are_admitted(
    m: ResourceManager,
    adv: ResourceAdvertisement,
    link: Link,
    app_accepts: Option<bool>,
)
    requires
        adv@.request_id is Some,
        adv@.flags & 8 != 0,
    ensures
        ({
            let fits = m.max_request_size is Some ==> adv.data_size <= m.max_request_size->0;
            let handled = m.request_handlers@.dom().contains(link.destination)
                && m.request_handlers@[link.destination]@.len() > 0;
            &&& fits && handled ==> admission(m, adv, link, app_accepts) == Admission::Accept
            &&& !fits || !handled ==> admission(m, adv, link, app_accepts) == Admission::Reject
        }),
{
}

/// A resource that carries a response is taken on exactly when it is within the limit for responses
/// and its request is waited for; otherwise it is turned down, and the request with it.
pub proof fn responses_are_admitted(
    m: ResourceManager,
    adv: ResourceAdvertisement,
    link: Link,
    app_accepts: Option<bool>,
)
    requires
        adv@.request_id is Some,
        adv.request_id is Some,
        adv@.flags & 8 == 0,
        adv@.flags & 16 != 0,
    ensures
        ({
            let fits = m.max_response_size is Some ==> adv.data_size <= m.max_response_size->0;
            let awaited = m.pending_requests@.dom().contains(adv.request_id->0);
            &&& fits && awaited ==> admission(m, adv, link, app_accepts) == Admission::Accept
            &&& !fits || !awaited ==> admission(m, adv, link, app_accepts)
                == Admission::RejectResponse
        }),
{
}

/// Any other resource goes by the strategy of its link: all are taken on, none is, or the
/// application decides. A link without a strategy takes none.
pub proof fn resources_go_by_strategy(
    m: ResourceManager,
    adv: ResourceAdvertisement,
    link: Link,
    app_accepts: Option<bool>,
)
    requires
        adv@.request_id is None || (adv@.flags & 8 == 0 && adv@.flags & 16 == 0),
    ensures
        ({
            let set = m.strategies@.dom().contains(link.id);
            let strategy = m.strategies@[link.id];
            let verdict = admission(m, adv, link, app_accepts);
            &&& !set ==> verdict == Admission::Ignore
            &&& set && strategy == ResourceStrategy::Ignore ==> verdict == Admission::Ignore
            &&& set && strategy == ResourceStrategy::All ==> verdict == Admission::Accept
            &&& set && strategy == ResourceStrategy::App && app_accepts == Some(true) ==> verdict
                == Admission::Accept
            &&& set && strategy == ResourceStrategy::App && app_accepts != Some(true) ==> verdict
                == Admission::Reject
        }),
{
}

/// Turning a resource down tells its sender, by the hash of the resource.
pub proof fn rejections_name_the_resource(a: AdvertisementView)
    ensures
        rejection(a).context == PacketContext::ResourceReceiverCancel,
        rejection(a).data == a.hash,
{
}

/// A resource that is being received is not taken on again.
pub proof fn known_resources_are_not_doubled(
    before: ResourceManager,
    after: ResourceManager,
    a: AdvertisementView,
    link: Link,
    now: u64,
    packets: Seq<LinkPacketView>,
    i: int,
)
    requires
        taken_on(before, after, a, link, now, packets),
        0 <= i < before.receivers().len(),
        before.receivers()[i].link_id == link.id,
        before.receivers()[i].hash@ == a.hash,
    ensures
        after == before,
        packets.len() == 0,
{
    assert(known_on_link(before.receivers(), link.id, a.hash));
}

/// A resource that is new on its link gets a receiver behind those that there are, and an event.
pub proof fn new_resources_are_taken_on(
    before: ResourceManager,
    after: ResourceManager,
    a: AdvertisementView,
    link: Link,
    now: u64,
    packets: Seq<LinkPacketView>,
)
    requires
        taken_on(before, after, a, link, now, packets),
        forall|i: int|
            0 <= i < before.receivers().len() ==> (#[trigger] before.receivers()[i]).link_id
                != link.id || before.receivers()[i].hash@ != a.hash,
    ensures
        after.receivers().len() == before.receivers().len() + 1,
        after.receivers().drop_last() == before.receivers(),
        after.receivers().last().hash@ == a.hash,
        after.receivers().last().link_id == link.id,
        after.receivers().last().random_hash@ == a.random_hash,
        after.receivers().last().total_size == a.data_size,
        after.events@.len() == before.events@.len() + 1,
{
    assert(!known_on_link(before.receivers(), link.id, a.hash));
    let v = choose|v: IncomingView|
        {
            &&& #[trigger] crate::resource::inbound::accepted(a, link, now, v)
            &&& after.receivers() == before.receivers().push(started(v, a, now).0)
            &&& packets == started(v, a, now).1
            &&& crate::resource::manager::event_views(after.events@)
                == crate::resource::manager::event_views(before.events@).push(
                crate::resource::admission::started_event(started(v, a, now).0, a),
            )
        };
    crate::resource::transfer::transfer_stays(v, a.hashmap, 0, link, 0, now);
    crate::resource::transfer::transfer_stays(
        after_hashmap(v, 0, a.hashmap),
        a.hashmap,
        0,
        link,
        0,
        now,
    );
    assert(after.receivers().drop_last() =~= before.receivers());
    assert(crate::resource::manager::event_views(after.events@).len() == after.events@.len());
    assert(crate::resource::manager::event_views(before.events@).len() == before.events@.len());
}

/// A part request reaches the transfer with its hash on its link, as long as that has not ended, and
/// no other.
pub proof fn requests_reach_their_transfer(
    v: OutgoingView,
    link_id: LinkId,
    hash: Seq<u8>,
    data: Seq<u8>,
    now: u64,
)
    ensures
        ({
            let ended = v.status == ResourceStatus::Complete || v.status == ResourceStatus::Failed
                || v.status == ResourceStatus::Corrupt || v.status == ResourceStatus::Rejected;
            let meant = v.link_id == link_id && v.hash@ == hash && !ended;
            &&& meant ==> request_step(v, link_id, hash, data, now) == after_request(v, data, now)
            &&& !meant ==> request_step(v, link_id, hash, data, now) == (
                v,
                Seq::<LinkPacketView>::empty(),
            )
        }),
{
}

/// A part reaches the transfers on its link that have not ended, and no others.
pub proof fn parts_reach_their_link(
    v: IncomingView,
    link_id: LinkId,
    data: Seq<u8>,
    link_rtt: u64,
    now: u64,
)
    ensures
        ({
            let ended = v.status == ResourceStatus::Complete || v.status == ResourceStatus::Failed
                || v.status == ResourceStatus::Corrupt || v.status == ResourceStatus::Rejected;
            let meant = v.link_id == link_id && !ended;
            &&& meant ==> part_step(v, link_id, data, link_rtt, now)
                == crate::resource::inbound::after_part(v, data, link_rtt, now)
            &&& !meant ==> part_step(v, link_id, data, link_rtt, now) == (
                v,
                Seq::<LinkPacketView>::empty(),
                false,
            )
        }),
{
}

/// A transfer is complete exactly when a proof with its hash comes over its link that holds the
/// digest that only the whole data gives; any other proof changes nothing.
pub proof fn proofs_complete_their_transfer(
    v: OutgoingView,
    link_id: LinkId,
    proof_data: Seq<u8>,
)
    ensures
        ({
            let right = proof_data.len() == 64 && v.link_id == link_id && proof_data.subrange(
                0,
                32,
            ) == v.hash@ && proof_data.subrange(32, 64) == v.expected_proof@;
            let after = proof_step(v, link_id, proof_data);
            &&& right ==> after.status == ResourceStatus::Complete
            &&& right ==> after == (OutgoingView { status: ResourceStatus::Complete, ..v })
            &&& !right ==> after == v
        }),
{
}

/// Each transfer that a proof completes is reported as complete, and each that has segments left
/// calls for the next one.
pub proof fn completed_transfers_are_reported(
    out: Seq<OutgoingView>,
    link_id: LinkId,
    proof_data: Seq<u8>,
    n: int,
    i: int,
)
    requires
        0 <= i < n <= out.len(),
        proof_data.len() == 64,
        out[i].link_id == link_id,
        out[i].hash@ == proof_data.subrange(0, 32),
        out[i].expected_proof@ == proof_data.subrange(32, 64),
        out[i].status != ResourceStatus::Complete,
    ensures
        exists|k: int|
            0 <= k < proof_events(out, link_id, proof_data, n).len() && (#[trigger] proof_events(
                out,
                link_id,
                proof_data,
                n,
            )[k]).status == ResourceStatus::Complete && proof_events(out, link_id, proof_data, n)[
            k].hash == out[i].hash && proof_events(out, link_id, proof_data, n)[k].link_id
                == link_id,
        out[i].segment_index < out[i].total_segments ==> called_for(
            out,
            link_id,
            proof_data,
            n,
        ).contains(out[i]),
    decreases n,
{
    let all = proof_events(out, link_id, proof_data, n);
    let before = proof_events(out, link_id, proof_data, n - 1);
    let called = called_for(out, link_id, proof_data, n);
    let called_before = called_for(out, link_id, proof_data, n - 1);
    if i < n - 1 {
        completed_transfers_are_reported(out, link_id, proof_data, n - 1, i);
        let k = choose|k: int|
            0 <= k < before.len() && (#[trigger] before[k]).status == ResourceStatus::Complete
                && before[k].hash == out[i].hash && before[k].link_id == link_id;
        assert(all[k] == before[k]);
        if called_before.contains(out[i]) {
            let j = choose|j: int| 0 <= j < called_before.len() && called_before[j] == out[i];
            assert(called[j] == out[i]);
        }
    } else {
        assert(all[all.len() - 1].status == ResourceStatus::Complete);
        if out[i].segment_index < out[i].total_segments {
            assert(called[called.len() - 1] == out[i]);
        }
    }
}

/// The next segment is called for by nothing but the right proof of a segment that is not the last.
pub proof fn last_segments_call_for_nothing(
    out: Seq<OutgoingView>,
    link_id: LinkId,
    proof_data: Seq<u8>,
    n: int,
    k: int,
)
    requires
        0 <= n <= out.len(),
        0 <= k < called_for(out, link_id, proof_data, n).len(),
    ensures
        ({
            let v = called_for(out, link_id, proof_data, n)[k];
            &&& v.segment_index < v.total_segments
            &&& v.link_id == link_id
            &&& v.hash@ == proof_data.subrange(0, 32)
            &&& v.expected_proof@ == proof_data.subrange(32, 64)
            &&& v.status != ResourceStatus::Complete
        }),
    decreases n,
{
    if n > 0 {
        let before = called_for(out, link_id, proof_data, n - 1);
        if k < before.len() {
            last_segments_call_for_nothing(out, link_id, proof_data, n - 1, k);
        }
    }
}

/// A cancellation fails the receiver with its hash on its link, and a rejection ends the sender as
/// rejected, as long as they have not ended; neither touches anything else.
pub proof fn cancellations_end_their_transfer(
    v: IncomingView,
    s: OutgoingView,
    link_id: LinkId,
    data: Seq<u8>,
)
    ensures
        ({
            let ended = v.status == ResourceStatus::Complete || v.status == ResourceStatus::Failed
                || v.status == ResourceStatus::Corrupt || v.status == ResourceStatus::Rejected;
            let meant = data.len() >= 32 && v.link_id == link_id && v.hash@ == data.subrange(0, 32)
                && !ended;
            &&& meant ==> cancel_step(v, link_id, data) == (IncomingView {
                status: ResourceStatus::Failed,
                ..v
            })
            &&& !meant ==> cancel_step(v, link_id, data) == v
        }),
        ({
            let ended = s.status == ResourceStatus::Complete || s.status == ResourceStatus::Failed
                || s.status == ResourceStatus::Corrupt || s.status == ResourceStatus::Rejected;
            let meant = data.len() >= 32 && s.link_id == link_id && s.hash@ == data.subrange(0, 32)
                && !ended;
            &&& meant ==> reject_step(s, link_id, data) == (OutgoingView {
                status: ResourceStatus::Rejected,
                ..s
            })
            &&& !meant ==> reject_step(s, link_id, data) == s
        }),
{
}

/// A cancelled receiver is reported as failed.
pub proof fn cancelled_receivers_are_reported(
    incoming: Seq<IncomingView>,
    link_id: LinkId,
    data: Seq<u8>,
    n: int,
    i: int,
)
    requires
        0 <= i < n <= incoming.len(),
        data.len() >= 32,
        incoming[i].link_id == link_id,
        incoming[i].hash@ == data.subrange(0, 32),
        incoming[i].status == ResourceStatus::Transferring || incoming[i].status
            == ResourceStatus::Assembling,
    ensures
        exists|k: int|
            0 <= k < cancel_events(incoming, link_id, data, n).len() && (#[trigger] cancel_events(
                incoming,
                link_id,
                data,
                n,
            )[k]).status == ResourceStatus::Failed && cancel_events(incoming, link_id, data, n)[
            k].hash == incoming[i].hash && cancel_events(incoming, link_id, data, n)[k].link_id
                == link_id,
    decreases n,
{
    let all = cancel_events(incoming, link_id, data, n);
    let before = cancel_events(incoming, link_id, data, n - 1);
    if i < n - 1 {
        cancelled_receivers_are_reported(incoming, link_id, data, n - 1, i);
        let k = choose|k: int|
            0 <= k < before.len() && (#[trigger] before[k]).status == ResourceStatus::Failed
                && before[k].hash == incoming[i].hash && before[k].link_id == link_id;
        assert(all[k] == before[k]);
    } else {
        assert(all[all.len() - 1].status == ResourceStatus::Failed);
    }
}

/// A rejected sender is reported as rejected.
pub proof fn rejected_senders_are_reported(
    out: Seq<OutgoingView>,
    link_id: LinkId,
    data: Seq<u8>,
    n: int,
    i: int,
)
    requires
        0 <= i < n <= out.len(),
        data.len() >= 32,
        out[i].link_id == link_id,
        out[i].hash@ == data.subrange(0, 32),
        out[i].status == ResourceStatus::Advertised || out[i].status
            == ResourceStatus::Transferring || out[i].status == ResourceStatus::AwaitingProof
            || out[i].status == ResourceStatus::Queued,
    ensures
        exists|k: int|
            0 <= k < reject_events(out, link_id, data, n).len() && (#[trigger] reject_events(
                out,
                link_id,
                data,
                n,
            )[k]).status == ResourceStatus::Rejected && reject_events(out, link_id, data, n)[k].hash
                == out[i].hash && reject_events(out, link_id, data, n)[k].link_id == link_id,
    decreases n,
{
    let all = reject_events(out, link_id, data, n);
    let before = reject_events(out, link_id, data, n - 1);
    if i < n - 1 {
        rejected_senders_are_reported(out, link_id, data, n - 1, i);
        let k = choose|k: int|
            0 <= k < before.len() && (#[trigger] before[k]).status == ResourceStatus::Rejected
                && before[k].hash == out[i].hash && before[k].link_id == link_id;
        assert(all[k] == before[k]);
    } else {
        assert(all[all.len() - 1].status == ResourceStatus::Rejected);
    }
}

/// A link is busy while one of its transfers has not ended.
pub proof fn links_are_busy_until_the_end(out: Seq<OutgoingView>, link_id: LinkId, i: int)
    requires
        0 <= i < out.len(),
    ensures
        out[i].link_id == link_id && (out[i].status == ResourceStatus::Idle || out[i].status
            == ResourceStatus::Queued || out[i].status == ResourceStatus::Advertised
            || out[i].status == ResourceStatus::Transferring || out[i].status
            == ResourceStatus::AwaitingProof || out[i].status == ResourceStatus::Assembling)
            ==> link_busy(out, link_id),
        (forall|k: int|
            0 <= k < out.len() && (#[trigger] out[k]).link_id == link_id ==> out[k].status
                == ResourceStatus::Complete || out[k].status == ResourceStatus::Failed
                || out[k].status == ResourceStatus::Corrupt || out[k].status
                == ResourceStatus::Rejected) ==> !link_busy(out, link_id),
{
}

/// A receiver is found by link and hash, the first one where there are more, and the next to
/// assemble is the first on its link that has all parts and is not assembled.
pub proof fn receivers_are_found(
    incoming: Seq<IncomingView>,
    link_id: LinkId,
    hash: Seq<u8>,
    from: int,
)
    requires
        0 <= from <= incoming.len(),
    ensures
        ({
            let at = find_receiver(incoming, link_id, hash, from);
            &&& from <= at <= incoming.len()
            &&& at < incoming.len() ==> incoming[at].link_id == link_id && incoming[at].hash@
                == hash
            &&& forall|k: int|
                from <= k < at ==> (#[trigger] incoming[k]).link_id != link_id || incoming[k].hash@
                    != hash
        }),
        ({
            let at = find_assembling(incoming, link_id, from);
            &&& from <= at <= incoming.len()
            &&& at < incoming.len() ==> incoming[at].link_id == link_id && incoming[at].status
                == ResourceStatus::Assembling && incoming[at].assembled is None
            &&& forall|k: int|
                from <= k < at ==> (#[trigger] incoming[k]).link_id != link_id
                    || incoming[k].status != ResourceStatus::Assembling || incoming[k].assembled
                    is Some
        }),
    decreases incoming.len() - from,
{
    if from < incoming.len() {
        receivers_are_found(incoming, link_id, hash, from + 1);
    }
}

/// The parts that a request names go out, each as a packet of its own, when they are within reach;
/// nothing else goes out.
pub proof fn asked_parts_go_out(v: OutgoingView, data: Seq<u8>, to: int, i: int, k: int)
    requires
        0 <= i < to <= v.parts.len(),
        v.part_hashes.len() == v.parts.len(),
        v.receiver_min_consecutive_height <= i < v.receiver_min_consecutive_height + 224,
        0 <= k,
        ({
            let at = request_hash_at(data) + 32 + 4 * k;
            &&& at + 4 <= data.len()
            &&& data.subrange(at, at + 4) == v.part_hashes[i]@
        }),
    ensures
        exists|j: int|
            0 <= j < served(v, data, to).len() && (#[trigger] served(v, data, to)[j]).data
                == v.parts[i] && served(v, data, to)[j].context == PacketContext::Resource,
    decreases to,
{
    let all = served(v, data, to);
    let before = served(v, data, to - 1);
    if i == to - 1 {
        assert(crate::resource::outbound::nth_hash(data, request_hash_at(data) + 32, k)
            == v.part_hashes[i]@);
        assert(crate::resource::outbound::is_served(v, data, i));
        assert(all[all.len() - 1].data == v.parts[i]);
    } else {
        asked_parts_go_out(v, data, to - 1, i, k);
        let j = choose|j: int|
            0 <= j < before.len() && (#[trigger] before[j]).data == v.parts[i] && before[j].context
                == PacketContext::Resource;
        assert(all[j] == before[j]);
    }
}

/// What goes out for a request are parts whose map hashes it names.
pub proof fn only_asked_parts_go_out(v: OutgoingView, data: Seq<u8>, to: int, j: int)
    requires
        0 <= to <= v.parts.len(),
        0 <= j < served(v, data, to).len(),
    ensures
        exists|i: int, k: int|
            #![trigger v.parts[i], crate::resource::outbound::nth_hash(
                data,
                request_hash_at(data) + 32,
                k,
            )]
            0 <= i < to && 0 <= k && served(v, data, to)[j].data == v.parts[i]
                && crate::resource::outbound::nth_hash(data, request_hash_at(data) + 32, k)
                == v.part_hashes[i]@ && v.receiver_min_consecutive_height <= i
                < v.receiver_min_consecutive_height + 224,
    decreases to,
{
    if to > 0 {
        let before = served(v, data, to - 1);
        if j < before.len() {
            only_asked_parts_go_out(v, data, to - 1, j);
            let (i, k) = choose|i: int, k: int|
                #![trigger v.parts[i], crate::resource::outbound::nth_hash(
                    data,
                    request_hash_at(data) + 32,
                    k,
                )]
                0 <= i < to - 1 && 0 <= k && before[j].data == v.parts[i]
                    && crate::resource::outbound::nth_hash(data, request_hash_at(data) + 32, k)
                    == v.part_hashes[i]@ && v.receiver_min_consecutive_height <= i
                    < v.receiver_min_consecutive_height + 224;
            assert(served(v, data, to)[j].data == v.parts[i]);
        } else {
            let k = choose|k: int|
                0 <= k && request_hash_at(data) + 32 + 4 * k + 4 <= data.len()
                    && #[trigger] crate::resource::outbound::nth_hash(
                    data,
                    request_hash_at(data) + 32,
                    k,
                ) == v.part_hashes[to - 1]@;
            assert(served(v, data, to)[j].data == v.parts[to - 1]);
        }
    }
}

/// A part counts as sent once it has gone out, and stays so; when all have, the sender awaits the
/// proof, and before that it does not.
pub proof fn sent_parts_are_noted(v: OutgoingView, data: Seq<u8>, now: u64, i: int)
    requires
        sender_wf(v),
        v.parts.len() <= usize::MAX,
        data.len() >= request_hash_at(data) + 32,
        data[0] != 0xff,
        0 <= i < v.parts.len(),
    ensures
        ({
            let (after, packets) = after_request(v, data, now);
            &&& v.part_sent[i] ==> after.part_sent[i]
            &&& after.part_sent[i] ==> v.part_sent[i] || crate::resource::outbound::is_served(
                v,
                data,
                i,
            )
            &&& crate::resource::outbound::is_served(v, data, i) ==> after.part_sent[i]
            &&& packets == served(v, data, v.parts.len() as int)
            &&& packets.len() > 0 ==> after.last_activity == now && after.last_part_sent == now
            &&& packets.len() == 0 ==> after.last_activity == v.last_activity
                && after.last_part_sent == v.last_part_sent
            &&& after.status == ResourceStatus::AwaitingProof <==> forall|k: int|
                0 <= k < v.parts.len() ==> #[trigger] after.part_sent[k]
            &&& after.status == ResourceStatus::AwaitingProof || after.status
                == ResourceStatus::Transferring
        }),
{
    let noticed = crate::resource::outbound::noticed_request(v, now);
    same_served(v, noticed, data, v.parts.len() as int);
    assert(crate::resource::outbound::is_served(noticed, data, i)
        == crate::resource::outbound::is_served(v, data, i));
    let after = after_request(v, data, now).0;
    crate::resource::outbound::count_set_bound(after.part_sent);
}

proof fn same_served(v: OutgoingView, w: OutgoingView, data: Seq<u8>, to: int)
    requires
        v.parts == w.parts,
        v.part_hashes == w.part_hashes,
        v.receiver_min_consecutive_height == w.receiver_min_consecutive_height,
    ensures
        served(v, data, to) == served(w, data, to),
    decreases to,
{
    if to > 0 {
        same_served(v, w, data, to - 1);
        assert(crate::resource::outbound::is_served(v, data, to - 1)
            == crate::resource::outbound::is_served(w, data, to - 1));
    }
}

/// A request begins with a byte that says whether the receiver has run out of map hashes; where it
/// has, its last one comes next. The hash of the resource follows, and then what is asked for.
pub proof fn requests_have_their_layout(data: Seq<u8>)
    ensures
        data.len() > 0 && data[0] == 0xff ==> wants_hashmap(data) && request_hash_at(data) == 5,
        data.len() > 0 && data[0] != 0xff ==> !wants_hashmap(data) && request_hash_at(data) == 1,
{
}

/// A receiver that has run out of map hashes gets the next 74, or all that are left, from where its
/// own end; where that is no full segment of the map, the transfer has failed.
pub proof fn maps_are_extended(v: OutgoingView, data: Seq<u8>, now: u64)
    requires
        sender_wf(v),
        data.len() >= 37,
        data[0] == 0xff,
    ensures
        ({
            let reach = map_reach(v, data);
            let (after, packets) = after_request(v, data, now);
            let parts = served(v, data, v.parts.len() as int);
            &&& reach % 74 == 0 && reach < v.parts.len() ==> packets == parts.push(
                hashmap_packet(v, reach),
            )
            &&& reach % 74 != 0 || reach >= v.parts.len() ==> packets == parts && after.status
                == ResourceStatus::Failed
        }),
{
    let noticed = crate::resource::outbound::noticed_request(v, now);
    same_served(v, noticed, data, v.parts.len() as int);
    let reach = map_reach(v, data);
    let sent = crate::resource::outbound::served_parts(noticed, data, now);
    assert(map_reach(sent, data) == reach);
    let parts = served(v, data, v.parts.len() as int);
    assert(map_segment(sent, reach) == map_segment(v, reach));
    assert(hashmap_packet(sent, reach) == hashmap_packet(v, reach));
    assert(parts + seq![hashmap_packet(v, reach)] =~= parts.push(hashmap_packet(v, reach)));
    assert(parts + Seq::<LinkPacketView>::empty() =~= parts);
}

/// Data that does not hash to what was advertised is refused as corrupt; data that does is taken.
pub proof fn data_is_checked(v: IncomingView, data: Seq<u8>)
    ensures
        ({
            let (after, result) = after_data(v, data);
            let right = sha256_digest(data + v.random_hash@) == v.hash@;
            &&& !right ==> result is Err && after.status == ResourceStatus::Corrupt
                && after.assembled == v.assembled
            &&& right && !(v.has_metadata && v.segment_index == 1) ==> result == Ok::<
                Seq<u8>,
                RnsError,
            >(data) && after.assembled == Some(data) && after.status == v.status
            &&& result is Ok ==> right && after.assembled == Some(data)
        }),
{
}

/// A receiver whose data checks out is complete, proves it to the sender and hands the data on; for
/// a resource that is not split, all of it.
pub proof fn whole_resources_are_handed_on(
    link_id: LinkId,
    v: IncomingView,
    unsealed: Option<Seq<u8>>,
    max_size: usize,
    prior: Option<SplitView>,
    now: u64,
)
    requires
        !v.split,
        after_assembly(v, unsealed, max_size).1 is Ok,
    ensures
        ({
            let (w, result) = after_assembly(v, unsealed, max_size);
            let o = assembly_outcome(link_id, v, unsealed, max_size, prior, now);
            &&& o.receiver.status == ResourceStatus::Complete
            &&& o.full == Some(result->Ok_0)
            &&& o.metadata == w.metadata
            &&& o.event.status == ResourceStatus::Complete
            &&& o.event.data == Some(result->Ok_0)
            &&& o.event.metadata == w.metadata
            &&& o.event.hash == w.hash
            &&& o.event.link_id == link_id
            &&& o.packets.len() == 1
            &&& o.packets[0].packet_type == PacketType::Proof
            &&& o.packets[0].context == PacketContext::ResourceProof
            &&& o.packets[0].data == w.hash@ + sha256_digest(w.assembled->0 + w.hash@)
            &&& o.split == prior
        }),
{
}

/// A receiver whose data does not check out is corrupt, proves nothing and hands nothing on; a split
/// assembly of it goes.
pub proof fn corrupt_resources_are_not_handed_on(
    link_id: LinkId,
    v: IncomingView,
    unsealed: Option<Seq<u8>>,
    max_size: usize,
    prior: Option<SplitView>,
    now: u64,
)
    requires
        after_assembly(v, unsealed, max_size).1 is Err,
    ensures
        ({
            let o = assembly_outcome(link_id, v, unsealed, max_size, prior, now);
            &&& o.receiver.status == ResourceStatus::Corrupt
            &&& o.full is None
            &&& o.packets.len() == 0
            &&& o.event.status == ResourceStatus::Corrupt
            &&& o.event.data is None
            &&& v.split ==> o.split is None
            &&& !v.split ==> o.split == prior
        }),
{
}

/// The segments of a split resource are put together in their order: a segment that is the next one
/// is added at the end, and the first brings the metadata.
pub proof fn segments_are_added_in_order(
    prior: SplitView,
    v: IncomingView,
    data: Seq<u8>,
    now: u64,
)
    requires
        v.segment_index == prior.next_index,
        v.total_segments == prior.total_segments,
        v.total_size == prior.data_size,
        prior.data.len() + data.len() <= prior.data_size + 1024,
        prior.next_index < usize::MAX,
    ensures
        ({
            let next = absorbed(Some(prior), v, data, now);
            &&& next is Some
            &&& (next->0).data == prior.data + data
            &&& (next->0).next_index == prior.next_index + 1
            &&& (next->0).total_segments == prior.total_segments
            &&& (next->0).data_size == prior.data_size
            &&& (next->0).last_activity == now
            &&& v.segment_index != 1 ==> (next->0).metadata == prior.metadata
            &&& v.segment_index == 1 && prior.metadata is None ==> (next->0).metadata == v.metadata
        }),
{
}

/// The first segment begins an assembly.
pub proof fn first_segments_begin_assemblies(v: IncomingView, data: Seq<u8>, now: u64)
    requires
        v.segment_index == 1,
        data.len() <= v.total_size + 1024,
    ensures
        ({
            let next = absorbed(None, v, data, now);
            &&& next is Some
            &&& (next->0).data == data
            &&& (next->0).metadata == v.metadata
            &&& (next->0).next_index == 2
            &&& (next->0).total_segments == v.total_segments
            &&& (next->0).data_size == v.total_size
            &&& (next->0).last_activity == now
        }),
{
    assert(Seq::<u8>::empty() + data =~= data);
}

/// A segment that is not the next one, that speaks of another resource or that is too long is not
/// added.
pub proof fn other_segments_are_refused(
    prior: Option<SplitView>,
    v: IncomingView,
    data: Seq<u8>,
    now: u64,
)
    requires
        prior is None ==> v.segment_index != 1 || data.len() > v.total_size + 1024,
        prior is Some ==> v.segment_index != (prior->0).next_index || v.total_segments != (
        prior->0).total_segments || v.total_size != (prior->0).data_size || (prior->0).data.len()
            + data.len() > (prior->0).data_size + 1024,
    ensures
        absorbed(prior, v, data, now) is None,
{
}

/// The last segment of a split resource hands on all segments together, the ones before hand on
/// nothing yet, and one that does not fit ends the assembly.
pub proof fn last_segments_hand_on_everything(
    link_id: LinkId,
    w: IncomingView,
    data: Seq<u8>,
    prior: Option<SplitView>,
    now: u64,
)
    requires
        w.split,
    ensures
        ({
            let o = completed_outcome(link_id, w, data, prior, now);
            let next = absorbed(prior, w, data, now);
            let last = w.segment_index == w.total_segments;
            &&& next is None ==> o.receiver.status == ResourceStatus::Corrupt && o.full is None
                && o.split is None && o.event.status == ResourceStatus::Corrupt
            &&& next is Some ==> o.receiver.status == ResourceStatus::Complete && o.event.status
                == ResourceStatus::Complete
            &&& next is Some && last ==> o.full == Some((next->0).data) && o.metadata == (
            next->0).metadata && o.split is None && o.event.data == Some((next->0).data)
            &&& next is Some && !last ==> o.full is None && o.split == next && o.event.data is None
        }),
{
}

/// A completed response is told under the request that it names; one that is none fails the request,
/// unless it came with metadata, when it is the response itself.
pub proof fn responses_are_told(request_id: Seq<u8>, full: Seq<u8>, metadata: Option<Seq<u8>>)
    ensures
        ({
            let event = response_event(request_id, full, metadata);
            let kept = retained_response(request_id, full, metadata);
            let read = unpacked_response(full);
            &&& read is Some ==> event == (RequestEventView::Response {
                request_id: (read->0).0,
                data: (read->0).1,
                metadata,
            })
            &&& read is Some && (read->0).0 == request_id ==> kept == Some((read->0).1)
            &&& read is Some && (read->0).0 != request_id ==> kept is None
            &&& read is None && metadata is None ==> event == (RequestEventView::Failed {
                request_id,
            }) && kept is None
            &&& read is None && metadata is Some ==> event == (RequestEventView::Response {
                request_id,
                data: full,
                metadata,
            }) && kept == Some(full)
        }),
{
}

/// A request is answered by the last segment of a response that is complete, and by nothing else.
pub proof fn only_whole_responses_answer(v: IncomingView, full: Option<Seq<u8>>)
    ensures
        v.is_response && v.segment_index == v.total_segments && full is Some ==> answered_request(
            v,
            full,
        ) == v.request_id,
        !v.is_response || v.segment_index != v.total_segments || full is None ==> answered_request(
            v,
            full,
        ) is None,
{
}

/// A split resource has come all the way exactly when its last segment is complete; before that, its
/// progress stays at or below 999 thousandths.
pub proof fn split_resources_are_done_at_the_end(v: IncomingView)
    requires
        receiver_wf(v),
        v.split,
    ensures
        ({
            let done = v.status == ResourceStatus::Complete && v.segment_index == v.total_segments;
            let progress = receiver_progress(v);
            &&& done ==> progress.done == 1 && progress.total == 1
            &&& !done ==> progress.done * 1000 <= progress.total * 999
        }),
{
    let parts = v.total_parts as int;
    let received = v.received_count as int;
    let index = v.segment_index as int;
    let count = v.total_segments as int;
    let full = part_count(1_048_575, v.sdu as nat) as int;
    crate::resource::inbound::count_present_bound(v.parts);
    parts_hold_the_data(1_048_575, v.sdu as nat);
    let sdu = v.sdu as int;
    assert(0 <= full <= 1_048_575) by (nonlinear_arith)
        requires
            (full - 1) * sdu < 1_048_575,
            sdu >= 1,
            full >= 0,
    ;
    let top = 0x1_0000_0000_0000_0000int;
    assert(0 <= (index - 1) * full <= top * 1_048_575) by (nonlinear_arith)
        requires
            1 <= index <= top,
            0 <= full <= 1_048_575,
    ;
    assert(0 <= count * full <= top * 1_048_575) by (nonlinear_arith)
        requires
            1 <= count <= top,
            0 <= full <= 1_048_575,
    ;
    let a = (index - 1) * full;
    let c = count * full;
    assert(0 <= a * parts <= top * 1_048_575 * 4_000_000) by (nonlinear_arith)
        requires
            0 <= a <= top * 1_048_575,
            0 <= parts <= 4_000_000,
    ;
    assert(0 <= c * parts <= top * 1_048_575 * 4_000_000) by (nonlinear_arith)
        requires
            0 <= c <= top * 1_048_575,
            0 <= parts <= 4_000_000,
    ;
    assert(0 <= received * full <= 4_000_000 * 1_048_575) by (nonlinear_arith)
        requires
            0 <= received <= 4_000_000,
            0 <= full <= 1_048_575,
    ;
}

/// A resource in one segment has come as far as parts of it have arrived.
pub proof fn progress_counts_parts(v: IncomingView)
    requires
        receiver_wf(v),
        !v.split,
        v.status != ResourceStatus::Complete,
    ensures
        receiver_progress(v).done == v.received_count,
        receiver_progress(v).total == v.total_parts,
        receiver_progress(v).done <= receiver_progress(v).total,
{
    crate::resource::inbound::count_present_bound(v.parts);
}

/// A sender of a resource in one segment has come as far as parts of it were sent.
pub proof fn sender_progress_counts_parts(v: OutgoingView)
    requires
        sender_wf(v),
        !v.split,
        v.status != ResourceStatus::Complete,
    ensures
        sender_progress(v) == (v.sent_parts as int, v.parts.len() as int),
{
}

/// A complete last segment is all of it.
pub proof fn complete_is_all_of_it(v: OutgoingView)
    requires
        v.status == ResourceStatus::Complete,
        v.segment_index == v.total_segments,
    ensures
        sender_progress(v) == (1int, 1int),
{
}

/// As many parts as it takes: one fewer would not hold the data, and these do.
pub proof fn parts_hold_the_data(size: nat, sdu: nat)
    requires
        sdu > 0,
    ensures
        part_count(size, sdu) * sdu >= size,
        size > 0 ==> (part_count(size, sdu) - 1) * sdu < size,
        part_count(0, sdu) == 0,
{
    let n = part_count(size, sdu) as int;
    let d = sdu as int;
    let a = size + d - 1;
    assert(n == a / d);
    assert(n * d <= a < (n + 1) * d) by (nonlinear_arith)
        requires
            n == a / d,
            d > 0,
    ;
    assert((n + 1) * d == n * d + d) by (nonlinear_arith);
    assert((n - 1) * d == n * d - d) by (nonlinear_arith);
    assert((d - 1) / d == 0) by (nonlinear_arith)
        requires
            d > 0,
    ;
}

/// A part is as long as the link lets it be, or 464 bytes where that is not known.
pub proof fn links_decide_on_part_sizes(link: Link)
    ensures
        link.mtu > 0 ==> part_size(link) == link.sdu,
        link.mtu == 0 ==> part_size(link) == 464,
{
}

/// An advertisement waits as long as was asked for, or six round trips and eleven and a quarter
/// seconds.
pub proof fn advertisements_wait(requested: Option<u64>, rtt: u64)
    ensures
        requested is Some ==> advertisement_timeout(requested, rtt) == requested->0,
        requested is None ==> advertisement_timeout(requested, rtt) == 6 * rtt + 11_250_000_000,
{
}

/// An advertised sender is under way from then on, with its retries and no round trip measured.
pub proof fn advertising_starts_the_clock(v: OutgoingView, now: u64)
    ensures
        advertised(v, now).status == ResourceStatus::Advertised,
        advertised(v, now).adv_sent == Some(now),
        advertised(v, now).last_activity == now,
        advertised(v, now).rtt is None,
        advertised(v, now).parts == v.parts,
        advertised(v, now).hash == v.hash,
{
}

/// Map hashes collide when two parts no farther than 224 apart have the same.
pub proof fn collisions_are_found(hashes: Seq<Seq<u8>>, i: int, j: int)
    requires
        0 <= i < j < hashes.len(),
        j - i <= 224,
        !collides(hashes),
    ensures
        hashes[i] != hashes[j],
{
}

/// The round-trip time starts as that of the link, and then moves towards each measurement by a
/// twentieth at most, never past it.
pub proof fn round_trips_are_eased(current: u64, measured: u64, link_rtt: u64)
    ensures
        adapted_rtt(None, measured, link_rtt) == Some(link_rtt),
        ({
            let next = adapted_rtt(Some(current), measured, link_rtt);
            &&& next is Some
            &&& measured <= current ==> measured <= next->0 <= current
            &&& measured >= current ==> current <= next->0 <= measured
            &&& measured < current && (current - measured) * 20 <= current - 20 ==> next->0
                == measured
            &&& measured < current && current - current / 20 > measured ==> next->0 == current
                - current / 20
            &&& measured > current && current + current / 20 < measured ==> next->0 == current
                + current / 20
            &&& measured > current && current + current / 20 >= measured ==> next->0 == measured
        }),
{
}

/// Four fast rounds, of more than 6250 bytes in a second, allow a window of 75 parts; others do not
/// count.
pub proof fn fast_links_get_larger_windows(v: IncomingView, rate: Rate)
    requires
        v.fast_rate_rounds < 4,
    ensures
        ({
            let fast = rate.bytes * 1_000_000_000 > 6250 * rate.nanos;
            let after = counted_fast(v, rate);
            &&& fast ==> after.fast_rate_rounds == v.fast_rate_rounds + 1
            &&& !fast ==> after == v
            &&& fast && v.fast_rate_rounds == 3 ==> after.window_max == 75
            &&& fast && v.fast_rate_rounds < 3 ==> after.window_max == v.window_max
        }),
{
}

/// Two very slow rounds, of less than 250 bytes in a second, before any fast one cap the window at
/// four parts.
pub proof fn slow_links_get_smaller_windows(v: IncomingView, rate: Rate)
    requires
        v.very_slow_rate_rounds < 2,
    ensures
        ({
            let slow = rate.bytes * 1_000_000_000 < 250 * rate.nanos && v.fast_rate_rounds == 0;
            let after = counted_slow(v, rate);
            &&& slow ==> after.very_slow_rate_rounds == v.very_slow_rate_rounds + 1
            &&& !slow ==> after == v
            &&& slow && v.very_slow_rate_rounds == 1 ==> after.window_max == 4
            &&& slow && v.very_slow_rate_rounds == 0 ==> after.window_max == v.window_max
        }),
{
}

/// A packet reaches all transfers in turn: what each of them sends comes out in that order, and each
/// becomes what the packet makes of it.
pub proof fn transfers_answer_in_turn(
    out: Seq<OutgoingView>,
    incoming: Seq<IncomingView>,
    sender_step: spec_fn(OutgoingView) -> (OutgoingView, Seq<LinkPacketView>),
    receiver_step: spec_fn(IncomingView) -> (IncomingView, Seq<LinkPacketView>, bool),
    n: int,
)
    requires
        0 <= n < out.len(),
        n < incoming.len(),
    ensures
        sender_packets(out, sender_step, 0).len() == 0,
        sender_packets(out, sender_step, n + 1) == sender_packets(out, sender_step, n)
            + sender_step(out[n]).1,
        stepped_senders(out, sender_step).len() == out.len(),
        stepped_senders(out, sender_step)[n] == sender_step(out[n]).0,
        receiver_packets(incoming, receiver_step, 0).len() == 0,
        receiver_packets(incoming, receiver_step, n + 1) == receiver_packets(
            incoming,
            receiver_step,
            n,
        ) + receiver_step(incoming[n]).1,
        stepped_receivers(incoming, receiver_step).len() == incoming.len(),
        stepped_receivers(incoming, receiver_step)[n] == receiver_step(incoming[n]).0,
{
}

/// The next segment of a resource is of the same stream and continues it, under the hash of the
/// first segment and with the settings of the one before.
pub proof fn next_segments_carry_on(p: PendingSegment, v: OutgoingView)
    requires
        follows(p, v),
    ensures
        p.stream@ == v.original_stream,
        p.segment_index == v.segment_index + 1,
        p.original_hash == Some(v.original_hash),
        p.auto_compress == v.auto_compress,
        p.has_metadata == v.has_metadata,
        p.metadata_size == v.metadata_size,
        p.timeout == v.requested_timeout,
        p.request_id == v.request_id,
        p.is_response == v.is_response,
{
}

/// What is said of a transfer that has ended: its link, its hash and how it ended, and no data.
pub proof fn ended_transfers_are_named(
    link_id: LinkId,
    hash: crate::hash::Hash,
    status: ResourceStatus,
    progress: Progress,
    a: AdvertisementView,
)
    ensures
        ({
            let event = ended_event(link_id, hash, status, progress, a);
            &&& event.link_id == link_id
            &&& event.hash == hash
            &&& event.status == status
            &&& event.progress == progress
            &&& event.data is None
            &&& event.metadata is None
            &&& event.advertisement == Some(a)
        }),
{
}

/// What the events of a proof say of each transfer that it completes: its hash, that it is complete,
/// and its advertisement, in the order of the transfers.
pub proof fn proofs_report_each_transfer(
    out: Seq<OutgoingView>,
    link_id: LinkId,
    proof_data: Seq<u8>,
    n: int,
)
    requires
        0 <= n < out.len(),
    ensures
        proof_events(out, link_id, proof_data, 0).len() == 0,
        ({
            let before = proof_events(out, link_id, proof_data, n);
            let after = proof_events(out, link_id, proof_data, n + 1);
            let done = OutgoingView { status: ResourceStatus::Complete, ..out[n] };
            if proof_data.len() == 64 && out[n].link_id == link_id && out[n].hash@
                == proof_data.subrange(0, 32) && out[n].expected_proof@ == proof_data.subrange(
                32,
                64,
            ) && out[n].status != ResourceStatus::Complete {
                &&& after.len() == before.len() + 1
                &&& after.drop_last() == before
                &&& after.last().hash == out[n].hash
                &&& after.last().link_id == link_id
                &&& after.last().status == ResourceStatus::Complete
                &&& after.last().advertisement == Some(
                    crate::resource::outbound::advertisement_view(done),
                )
                &&& after.last().progress == crate::resource::outbound::at_most_one(
                    sender_progress(done),
                )
                &&& after.last().data is None
            } else {
                after == before
            }
        }),
{
    let before = proof_events(out, link_id, proof_data, n);
    let after = proof_events(out, link_id, proof_data, n + 1);
    if after.len() > before.len() {
        assert(after.drop_last() =~= before);
    }
}

/// A receiver's map reaches to the part that it names as its last: the first part of that hash from
/// where the sender looks, and no farther.
pub proof fn maps_reach_to_the_named_part(v: OutgoingView, data: Seq<u8>, i: int)
    requires
        sender_wf(v),
        data.len() >= 5,
        v.receiver_min_consecutive_height <= i < v.parts.len(),
        i < v.receiver_min_consecutive_height + 224,
        v.part_hashes[i]@ == data.subrange(1, 5),
        forall|k: int|
            v.receiver_min_consecutive_height <= k < i ==> (#[trigger] v.part_hashes[k])@
                != data.subrange(1, 5),
    ensures
        map_reach(v, data) == i + 1,
{
    reached_from(
        v.part_hashes,
        data.subrange(1, 5),
        v.receiver_min_consecutive_height as int,
        crate::resource::outbound::search_end(v),
        i,
    );
}

proof fn reached_from(hashes: Seq<[u8; 4]>, mh: Seq<u8>, from: int, to: int, i: int)
    requires
        0 <= from <= i < to <= hashes.len(),
        hashes[i]@ == mh,
        forall|k: int| from <= k < i ==> (#[trigger] hashes[k])@ != mh,
    ensures
        crate::resource::outbound::parts_through(hashes, mh, from, to) == i + 1,
    decreases i - from,
{
    if from < i {
        assert(hashes[from]@ != mh);
        reached_from(hashes, mh, from + 1, to, i);
    }
}

/// A request that has failed is told, and nothing else changes; where nothing is told, nothing has
/// been settled.
pub proof fn failed_requests_are_told(
    before: ResourceManager,
    after: ResourceManager,
    link_id: LinkId,
    request_id: AddressHash,
)
    ensures
        crate::resource::admission::request_failed(before, after, link_id, request_id) ==> {
            &&& after.request_events@.len() == before.request_events@.len() + 1
            &&& forall|i: int|
                0 <= i < before.request_events@.len() ==> #[trigger] after.request_events@[i]
                    == before.request_events@[i]
            &&& after.request_events@.last().link_id == link_id
            &&& after.request_events@.last().event@ == (RequestEventView::Failed {
                request_id: request_id@,
            })
            &&& after.out == before.out && after.incoming == before.incoming
            &&& after.pending_requests == before.pending_requests
        },
        crate::resource::assembly::responses_unchanged(before, after) ==> {
            &&& after.completed_responses == before.completed_responses
            &&& after.pending_requests == before.pending_requests
            &&& after.request_events == before.request_events
        },
{
    if crate::resource::admission::request_failed(before, after, link_id, request_id) {
        assert forall|i: int| 0 <= i < before.request_events@.len() implies
            #[trigger] after.request_events@[i] == before.request_events@[i] by {
            assert(after.request_events@.drop_last()[i] == before.request_events@[i]);
        }
    }
}

/// A response that has arrived is told, its request is no longer awaited, and other requests are.
pub proof fn settled_responses_are_told(
    before: ResourceManager,
    after: ResourceManager,
    link_id: LinkId,
    request_id: AddressHash,
    other: AddressHash,
    full: Seq<u8>,
    metadata: Option<Seq<u8>>,
)
    requires
        crate::resource::assembly::response_settled(
            before,
            after,
            link_id,
            request_id,
            full,
            metadata,
        ),
        other != request_id,
    ensures
        !after.pending_requests@.dom().contains(request_id),
        after.pending_requests@.dom().contains(other) <==> before.pending_requests@.dom().contains(
            other,
        ),
        after.request_events@.len() == before.request_events@.len() + 1,
        after.request_events@.last().link_id == link_id,
        after.request_events@.last().event@ == response_event(request_id@, full, metadata),
        retained_response(request_id@, full, metadata) is Some
            ==> after.completed_responses@.dom().contains(request_id)
            && crate::resource::inbound::content(after.completed_responses@[request_id])
            == retained_response(request_id@, full, metadata),
        retained_response(request_id@, full, metadata) is None ==> after.completed_responses@
            == before.completed_responses@,
{
}

/// Registering a path adds it to those of its destination, and takes none away, there or elsewhere.
pub proof fn registered_paths_are_added(
    before: Map<AddressHash, Vec<AddressHash>>,
    after: Map<AddressHash, Vec<AddressHash>>,
    destination: AddressHash,
    path: Seq<u8>,
    other: AddressHash,
    h: AddressHash,
)
    requires
        crate::resource::admission::registered(before, after, destination, path),
    ensures
        after.dom().contains(destination),
        h@ == sha256_digest(path).subrange(0, 16) ==> after[destination]@.contains(h),
        before.dom().contains(destination) && before[destination]@.contains(h)
            ==> after[destination]@.contains(h),
        after[destination]@.contains(h) && h@ != sha256_digest(path).subrange(0, 16)
            ==> before.dom().contains(destination) && before[destination]@.contains(h),
        other != destination ==> (after.dom().contains(other) <==> before.dom().contains(other)),
        other != destination && before.dom().contains(other) ==> after[other] == before[other],
{
    if other != destination && before.dom().contains(other) {
        assert(before.remove(destination)[other] == before[other]);
        assert(after.remove(destination)[other] == after[other]);
    }
}

/// What comes of an assembly reaches its own receiver and its own split resource; one event tells of
/// it, and all else stays.
pub proof fn outcomes_reach_their_receiver(
    before: ResourceManager,
    after: ResourceManager,
    k: int,
    o: crate::resource::assembly::AssemblyOutcome,
    i: int,
)
    requires
        crate::resource::assembly::outcome_applied(before, after, k, o),
        0 <= k < before.receivers().len(),
        0 <= i < before.receivers().len(),
        i != k,
    ensures
        after.receivers().len() == before.receivers().len(),
        after.receivers()[k] == o.receiver,
        after.receivers()[i] == before.receivers()[i],
        crate::resource::manager::event_views(after.events@) == crate::resource::manager::event_views(
            before.events@,
        ).push(o.event),
        crate::resource::assembly::split_at(
            after.split_assembly@,
            before.receivers()[k].original_hash,
        ) == o.split,
        before.receivers()[i].original_hash != before.receivers()[k].original_hash
            ==> crate::resource::assembly::split_at(
            after.split_assembly@,
            before.receivers()[i].original_hash,
        ) == crate::resource::assembly::split_at(
            before.split_assembly@,
            before.receivers()[i].original_hash,
        ),
{
}

/// A receiver of a split resource has come as far as its segments and parts say, but never nearer to
/// the end than 999 in a thousand before the last segment is complete.
pub proof fn split_receivers_are_not_done_early(v: IncomingView)
    requires
        receiver_wf(v),
        v.split,
        v.status != ResourceStatus::Complete,
    ensures
        ({
            let (done, total) = crate::resource::outbound::segment_progress(
                v.received_count as int,
                v.total_parts as int,
                v.segment_index as int,
                v.total_segments as int,
                part_count(1048575, v.sdu as nat) as int,
            );
            &&& done * 1000 > total * 999 ==> receiver_progress(v) == (Progress {
                done: 999,
                total: 1000,
            })
            &&& done * 1000 <= total * 999 ==> receiver_progress(v) == (Progress {
                done: done as u128,
                total: total as u128,
            })
        }),
{
}

} // verus!
