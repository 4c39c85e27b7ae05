//! What holds of the watchdog: a peer that stays silent is asked again, and a transfer whose peer is
//! silent for good ends and is reported.

use vstd::prelude::*;

use crate::link::{Link, LinkPacketView, Rate};
use crate::packet::PacketContext;
use crate::resource::inbound::{
    after_hashmap_packet, after_part, after_receiver_check, expected_rate,
    grown_window, overdue, receiver_wf, shrunk_window, IncomingView,
};
use crate::resource::manager::SplitView;
use crate::resource::outbound::{
    advertisement_packet, after_check, after_request, request_hash_at, OutgoingView,
};
use crate::resource::watchdog::{
    abandoned, assembly_stays, link_active, receiver_check_step, receiver_sweep,
    sender_check_step, sender_sweep,
};
use crate::resource::ResourceStatus;

verus! {

/// How long a receiver waits: a quarter of a second from the last sign of life, half a second more
/// for each retry that is used up, and as long as the awaited bits take at the expected rate. Until
/// then nothing is overdue, and from then on everything is. `wait` stands for that last time, to
/// the nanosecond below.
pub proof fn answers_are_awaited(
    v: IncomingView,
    rate: Rate,
    bits: int,
    wait: int,
    now: u64,
)
    requires
        receiver_wf(v),
        rate.bytes > 0,
        rate.nanos > 0,
        rate.bytes * 8 * 1_000_000_000 * 10_000 >= rate.nanos,
        v.req_resp_rtt_rate.bytes == 0 ==> bits == v.part_timeout_factor * 3 * v.sdu,
        v.req_resp_rtt_rate.bytes != 0 ==> bits == v.part_timeout_factor * v.outstanding_parts
            * v.sdu * 8 + (if v.waiting_for_hmu || v.outstanding_parts == 0 {
            v.sdu * 28
        } else {
            0
        }),
        0 <= wait,
        wait * (rate.bytes * 8) <= bits * rate.nanos < (wait + 1) * (rate.bytes * 8),
    ensures
        ({
            let from = v.last_activity + 250_000_000 + (16 - v.retries_left) * 500_000_000;
            overdue(v, rate, now) <==> now > from + wait
        }),
{
    let from = v.last_activity + 250_000_000 + (16 - v.retries_left) * 500_000_000;
    let t = now - from;
    let eight = rate.bytes * 8;
    let nanos = rate.nanos as int;
    assert(rate.bytes * (8 * 1_000_000_000) == eight * 1_000_000_000) by (nonlinear_arith)
        requires
            eight == rate.bytes * 8,
    ;
    assert(bits * (nanos * 1_000_000_000) == (bits * nanos) * 1_000_000_000) by (nonlinear_arith);
    assert(t * (eight * 1_000_000_000) == (t * eight) * 1_000_000_000) by (nonlinear_arith);
    assert(bits >= 0) by {
        assert(v.part_timeout_factor * 3 * v.sdu >= 0) by (nonlinear_arith);
        assert(v.part_timeout_factor * v.outstanding_parts * v.sdu * 8 >= 0) by (nonlinear_arith);
    }
    if t > wait {
        assert(t * eight >= (wait + 1) * eight) by (nonlinear_arith)
            requires
                t >= wait + 1,
                eight > 0,
        ;
    } else if t > 0 {
        assert(t * eight <= wait * eight) by (nonlinear_arith)
            requires
                t <= wait,
                eight > 0,
        ;
    }
}

/// Nothing is overdue within a quarter of a second of the last sign of life, and half a second more
/// for each retry that is used up.
pub proof fn nothing_is_overdue_at_once(v: IncomingView, rate: Rate, now: u64)
    requires
        receiver_wf(v),
        now <= v.last_activity + 250_000_000 + (16 - v.retries_left) * 500_000_000,
    ensures
        !overdue(v, rate, now),
{
}

/// What is overdue stays overdue while nothing happens.
pub proof fn overdue_stays_overdue(v: IncomingView, rate: Rate, now: u64, later: u64)
    requires
        receiver_wf(v),
        overdue(v, rate, now),
        now <= later,
    ensures
        overdue(v, rate, later),
{
    let (bits, nanos) = crate::resource::inbound::bit_rate(rate);
    let from = crate::resource::inbound::grace_end(v);
    assert(bits >= 0);
    assert((later - from) * bits >= (now - from) * bits) by (nonlinear_arith)
        requires
            later >= now,
            bits >= 0,
    ;
}

/// The rate that a receiver expects is the one it has measured on this transfer, or else the one
/// of the transfer before, or else what the link was established with.
pub proof fn rates_are_taken_from_the_transfer(v: IncomingView, link: Link)
    ensures
        v.req_data_rtt_rate.bytes != 0 ==> expected_rate(v, link) == v.req_data_rtt_rate,
        v.req_data_rtt_rate.bytes == 0 && v.previous_eifr is Some ==> expected_rate(v, link)
            == v.previous_eifr->0,
        v.req_data_rtt_rate.bytes == 0 && v.previous_eifr is None ==> {
            let rtt = if v.rtt is Some {
                v.rtt->0
            } else {
                link.rtt
            };
            &&& expected_rate(v, link).bytes == link.establishment_cost
            &&& rtt >= 100_000 ==> expected_rate(v, link).nanos == rtt
            &&& rtt < 100_000 ==> expected_rate(v, link).nanos == 100_000
        },
{
}

/// A watchdog pass on a receiver that is not overdue changes nothing but the noted rate, sends
/// nothing and does not fail it.
pub proof fn patient_receivers_wait(v: IncomingView, link: Link, now: u64)
    requires
        v.status == ResourceStatus::Transferring,
        !overdue(v, expected_rate(v, link), now),
    ensures
        ({
            let (after, packets, failed) = after_receiver_check(v, link, now);
            &&& !failed
            &&& packets.len() == 0
            &&& after == (IncomingView { eifr: Some(expected_rate(v, link)), ..v })
        }),
{
}

/// A receiver that is overdue and has no retries left is failed by the watchdog pass, and the pass
/// says so.
pub proof fn spent_receivers_fail(v: IncomingView, link: Link, now: u64)
    requires
        v.status == ResourceStatus::Transferring,
        v.retries_left == 0,
        overdue(v, expected_rate(v, link), now),
    ensures
        ({
            let (after, packets, failed) = after_receiver_check(v, link, now);
            &&& failed
            &&& after.status == ResourceStatus::Failed
            &&& packets.len() == 0
        }),
{
}

/// A receiver that is overdue and has retries left uses one of them up: it sends a request, or fails
/// where it cannot. The pass itself does not report a failure.
pub proof fn overdue_receivers_use_up_retries(v: IncomingView, link: Link, now: u64)
    requires
        v.status == ResourceStatus::Transferring,
        v.retries_left > 0,
        overdue(v, expected_rate(v, link), now),
    ensures
        ({
            let (after, packets, failed) = after_receiver_check(v, link, now);
            &&& !failed
            &&& after.retries_left == v.retries_left - 1
            &&& after.max_retries == v.max_retries
            &&& after.parts == v.parts
            &&& after.received_count == v.received_count
            &&& after.status == ResourceStatus::Transferring || after.status
                == ResourceStatus::Failed
            &&& after.status == ResourceStatus::Transferring ==> packets.len() == 1
                && packets[0].context == PacketContext::ResourceRequest && after.last_activity
                == now && after.req_sent == now
        }),
{
}

/// A pass reports a failure only with the failure itself, and leaves alone what is not under way.
pub proof fn failures_are_reported_once(v: IncomingView, link: Link, now: u64)
    ensures
        after_receiver_check(v, link, now).2 ==> after_receiver_check(v, link, now).0.status
            == ResourceStatus::Failed && v.status == ResourceStatus::Transferring,
        v.status != ResourceStatus::Transferring ==> after_receiver_check(v, link, now) == (
            v,
            Seq::<LinkPacketView>::empty(),
            false,
        ),
{
}

/// A receiver after the first `n` watchdog passes, and whether one of them said that it failed.
pub open spec fn after_passes(v: IncomingView, link: Link, times: Seq<u64>, n: int) -> (
    IncomingView,
    bool,
)
    decreases n,
{
    if n <= 0 {
        (v, false)
    } else {
        let (before, failed) = after_passes(v, link, times, n - 1);
        let (after, _, now_failed) = after_receiver_check(before, link, times[n - 1]);
        (after, failed || now_failed)
    }
}

/// Whether each of the first `n` passes finds the answer overdue, as long as the transfer is under
/// way.
pub open spec fn all_overdue(v: IncomingView, link: Link, times: Seq<u64>, n: int) -> bool {
    forall|k: int|
        0 <= k < n ==> {
            let before = (#[trigger] after_passes(v, link, times, k)).0;
            before.status == ResourceStatus::Transferring ==> overdue(
                before,
                expected_rate(before, link),
                times[k],
            )
        }
}

/// A transfer whose sender is silent for good ends: after one more overdue pass than there are
/// retries left, and so after seventeen at the most, the receiver has failed. Where every request
/// could be sent, the last of these passes says so.
pub proof fn silent_transfers_end(v: IncomingView, link: Link, times: Seq<u64>, n: int)
    requires
        v.status == ResourceStatus::Transferring,
        0 <= n,
        all_overdue(v, link, times, n),
    ensures
        ({
            let (after, failed) = after_passes(v, link, times, n);
            &&& n > v.retries_left ==> after.status == ResourceStatus::Failed
            &&& failed ==> after.status == ResourceStatus::Failed
            &&& after.status == ResourceStatus::Transferring ==> after.retries_left
                == v.retries_left - n
            &&& after.status == ResourceStatus::Transferring || after.status
                == ResourceStatus::Failed
            &&& n > v.retries_left && after_passes(v, link, times, v.retries_left as int).0.status
                == ResourceStatus::Transferring ==> failed
        }),
        receiver_wf(v) ==> v.retries_left <= 16,
    decreases n,
{
    if n > 0 {
        assert forall|k: int| 0 <= k < n - 1 implies {
            let before = (#[trigger] after_passes(v, link, times, k)).0;
            before.status == ResourceStatus::Transferring ==> overdue(
                before,
                expected_rate(before, link),
                times[k],
            )
        } by {
            let whole = after_passes(v, link, times, k);
        }
        silent_transfers_end(v, link, times, n - 1);
        let before = after_passes(v, link, times, n - 1).0;
        let now = times[n - 1];
        if before.status == ResourceStatus::Transferring {
            assert(overdue(before, expected_rate(before, link), now));
            if before.retries_left == 0 {
                spent_receivers_fail(before, link, now);
            } else {
                overdue_receivers_use_up_retries(before, link, now);
            }
        } else {
            failures_are_reported_once(before, link, now);
        }
    }
}

/// A part that arrives is a sign of life: all retries are back, and the wait starts anew.
pub proof fn parts_are_signs_of_life(v: IncomingView, data: Seq<u8>, link_rtt: u64, now: u64)
    requires
        v.status != ResourceStatus::Failed,
    ensures
        after_part(v, data, link_rtt, now).0.retries_left == v.max_retries,
        after_part(v, data, link_rtt, now).0.last_activity == now,
{
}

/// A map update that is waited for is a sign of life too.
pub proof fn map_updates_are_signs_of_life(v: IncomingView, data: Seq<u8>, now: u64)
    requires
        v.status != ResourceStatus::Failed,
        v.waiting_for_hmu,
    ensures
        after_hashmap_packet(v, data, now).retries_left == v.max_retries,
        after_hashmap_packet(v, data, now).last_activity == now,
{
}

/// The window grows by one where its limit lets it, and shrinks by one while it is above its lower
/// limit, together with the upper limit, by one or two. Nothing else changes.
pub proof fn windows_move_by_one(v: IncomingView)
    requires
        receiver_wf(v),
    ensures
        ({
            let grown = grown_window(v);
            &&& grown == (IncomingView {
                window: grown.window,
                window_min: grown.window_min,
                ..v
            })
            &&& v.window < v.window_max ==> grown.window == v.window + 1
            &&& v.window >= v.window_max ==> grown == v
            &&& v.window < v.window_max && v.window + 1 - v.window_min >= v.window_flexibility
                ==> grown.window_min == v.window_min + 1
            &&& v.window + 1 - v.window_min < v.window_flexibility ==> grown.window_min
                == v.window_min
        }),
        ({
            let shrunk = shrunk_window(v);
            &&& shrunk == (IncomingView {
                window: shrunk.window,
                window_max: shrunk.window_max,
                ..v
            })
            &&& v.window > v.window_min ==> shrunk.window == v.window - 1
            &&& v.window <= v.window_min ==> shrunk == v
            &&& v.window > v.window_min && v.window_max > v.window_min ==> shrunk.window_max
                == v.window_max - 1 || shrunk.window_max == v.window_max - 2
            &&& v.window > v.window_min && v.window_max > v.window_min && v.window_max - v.window
                < v.window_flexibility ==> shrunk.window_max == v.window_max - 1
            &&& v.window > v.window_min && v.window_max > v.window_min && v.window_max - v.window
                >= v.window_flexibility ==> shrunk.window_max == v.window_max - 2
        }),
{
}

/// A sender that has advertised waits for its time and a second more. After that it advertises
/// again while it has retries left, and fails when it has none, which the pass says.
pub proof fn unanswered_advertisements_are_repeated(
    v: OutgoingView,
    at: u64,
    link_rtt: u64,
    now: u64,
)
    requires
        v.status == ResourceStatus::Advertised,
        v.adv_sent == Some(at),
    ensures
        ({
            let (after, packets, failed) = after_check(v, link_rtt, now);
            let late = now > at + v.timeout + 1_000_000_000;
            &&& !late ==> after == v && packets.len() == 0 && !failed
            &&& late && v.retries_left == 0 ==> failed && after.status == ResourceStatus::Failed
                && packets.len() == 0
            &&& late && v.retries_left > 0 ==> !failed && after.status
                == ResourceStatus::Advertised && after.adv_sent == Some(now) && packets.len() == 1
                && packets[0] == advertisement_packet(v)
        }),
{
}

/// A sender gives up a transfer whose receiver has been silent for all retries' round trips and the
/// grace times; until then it waits.
pub proof fn silent_receivers_are_given_up(v: OutgoingView, rtt: u64, link_rtt: u64, now: u64)
    requires
        v.status == ResourceStatus::Transferring,
        v.rtt is Some ==> rtt == v.rtt->0,
        v.rtt is None ==> rtt == link_rtt,
    ensures
        ({
            let (after, packets, failed) = after_check(v, link_rtt, now);
            let end = v.last_activity + rtt * v.timeout_factor * v.max_retries
                + v.sender_grace_time + 68_000_000_000;
            &&& packets.len() == 0
            &&& now > end ==> failed && after.status == ResourceStatus::Failed
            &&& now <= end ==> !failed && after == v
        }),
{
}

/// A sender waits for the proof three round trips and the grace time at a time; each time uses up a
/// retry, and without one left the transfer fails, which the pass says.
pub proof fn missing_proofs_are_given_up(v: OutgoingView, rtt: u64, link_rtt: u64, now: u64)
    requires
        v.status == ResourceStatus::AwaitingProof,
        v.rtt is Some ==> rtt == v.rtt->0,
        v.rtt is None ==> rtt == link_rtt,
    ensures
        ({
            let (after, packets, failed) = after_check(v, link_rtt, now);
            let late = now > v.last_part_sent + rtt * 3 + v.sender_grace_time;
            &&& packets.len() == 0
            &&& !late ==> !failed && after.status == ResourceStatus::AwaitingProof
                && after.retries_left == v.retries_left && after.last_part_sent == v.last_part_sent
            &&& late && v.retries_left > 0 ==> !failed && after.status
                == ResourceStatus::AwaitingProof && after.retries_left == v.retries_left - 1
                && after.last_part_sent == now
            &&& late && v.retries_left == 0 ==> failed && after.status == ResourceStatus::Failed
        }),
{
}

/// A pass fails a sender only when it says so, and leaves those alone that wait for nothing.
pub proof fn idle_senders_are_left_alone(v: OutgoingView, link_rtt: u64, now: u64)
    ensures
        after_check(v, link_rtt, now).2 <==> after_check(v, link_rtt, now).0.status
            == ResourceStatus::Failed && v.status != ResourceStatus::Failed,
        v.status != ResourceStatus::Advertised && v.status != ResourceStatus::Transferring
            && v.status != ResourceStatus::AwaitingProof ==> after_check(v, link_rtt, now) == (
            v,
            Seq::<LinkPacketView>::empty(),
            false,
        ),
{
}

/// A request starts the transfer anew for the watchdog: all retries are back.
pub proof fn requests_are_signs_of_life(v: OutgoingView, data: Seq<u8>, now: u64)
    requires
        data.len() >= request_hash_at(data) + 32,
    ensures
        ({
            let after = after_request(v, data, now).0;
            &&& after.status == ResourceStatus::Transferring || after.status
                == ResourceStatus::AwaitingProof || after.status == ResourceStatus::Failed
            &&& after.status == ResourceStatus::Transferring ==> after.retries_left == v.max_retries
            &&& after.status == ResourceStatus::AwaitingProof ==> after.retries_left == 3
            &&& v.rtt is None && v.adv_sent is Some && now >= v.adv_sent->0 ==> after.rtt == Some(
                (now - v.adv_sent->0) as u64,
            )
            &&& v.rtt is Some ==> after.rtt == v.rtt
        }),
{
}

/// The statuses in which a transfer has ended.
pub proof fn ended_transfers(status: ResourceStatus)
    ensures
        status.concluded() <==> !(status == ResourceStatus::Idle || status
            == ResourceStatus::Queued || status == ResourceStatus::Advertised || status
            == ResourceStatus::Transferring || status == ResourceStatus::AwaitingProof || status
            == ResourceStatus::Assembling),
{
}

/// What the manager reports of a receiver: a failure of the pass, as one event with the link, the
/// hash and that status, and nothing else. What belongs to another link or has ended is left alone.
pub proof fn failed_receivers_are_reported(v: IncomingView, link: Link, now: u64)
    ensures
        ({
            let (after, packets, events) = receiver_check_step(v, link, now);
            let watched = v.link_id == link.id && (v.status == ResourceStatus::Transferring
                || v.status == ResourceStatus::Assembling);
            &&& v.link_id != link.id ==> after == v && packets.len() == 0 && events.len() == 0
            &&& v.status == ResourceStatus::Complete || v.status == ResourceStatus::Failed
                || v.status == ResourceStatus::Corrupt || v.status == ResourceStatus::Rejected
                ==> after == v && packets.len() == 0 && events.len() == 0
            &&& watched ==> after == after_receiver_check(v, link, now).0 && packets
                == after_receiver_check(v, link, now).1
            &&& watched && after_receiver_check(v, link, now).2 ==> events.len() == 1
                && events[0].status == ResourceStatus::Failed && events[0].link_id == link.id
                && events[0].hash == v.hash && events[0].data is None
            &&& watched && !after_receiver_check(v, link, now).2 ==> events.len() == 0
        }),
{
}

/// What the manager reports of a sender: a failure of the pass, as one event with the link, the hash
/// and that status. What belongs to another link or has ended is left alone.
pub proof fn failed_senders_are_reported(v: OutgoingView, link: Link, now: u64, may: bool)
    ensures
        ({
            let (after, packets, events) = sender_check_step(v, link, now, may);
            let watched = v.link_id == link.id && (v.status == ResourceStatus::Advertised
                || v.status == ResourceStatus::Transferring || v.status
                == ResourceStatus::AwaitingProof);
            &&& v.link_id != link.id ==> after == v && packets.len() == 0 && events.len() == 0
            &&& v.status == ResourceStatus::Complete || v.status == ResourceStatus::Failed
                || v.status == ResourceStatus::Corrupt || v.status == ResourceStatus::Rejected
                ==> after == v && packets.len() == 0 && events.len() == 0
            &&& watched ==> after == after_check(v, link.rtt, now).0 && packets == after_check(
                v,
                link.rtt,
                now,
            ).1
            &&& watched && after_check(v, link.rtt, now).2 ==> events.len() == 1
                && events[0].status == ResourceStatus::Failed && events[0].link_id == link.id
                && events[0].hash == v.hash
            &&& watched && !after_check(v, link.rtt, now).2 ==> events.len() == 0
            &&& v.link_id == link.id && v.status == ResourceStatus::Queued && may ==> after.status
                == ResourceStatus::Advertised && after.adv_sent == Some(now) && packets.len() == 1
                && packets[0] == advertisement_packet(v)
            &&& v.link_id == link.id && v.status == ResourceStatus::Queued && !may ==> after == v
                && packets.len() == 0
        }),
{
}

/// A pass over the receivers of a link does with each of them what it does with one alone, and
/// reports all their failures.
pub proof fn passes_reach_every_receiver(
    incoming: Seq<IncomingView>,
    link: Link,
    now: u64,
    n: int,
    i: int,
)
    requires
        0 <= i < n <= incoming.len(),
    ensures
        ({
            let (after, packets, events) = receiver_sweep(incoming, link, now, n);
            let (w, more_packets, more_events) = receiver_check_step(incoming[i], link, now);
            &&& after.len() == n
            &&& after[i] == w
            &&& more_packets.len() > 0 ==> packets.contains(more_packets[0])
            &&& more_events.len() > 0 ==> events.contains(more_events[0])
        }),
    decreases n,
{
    let (prior, packets, events) = receiver_sweep(incoming, link, now, n - 1);
    let (all, all_packets, all_events) = receiver_sweep(incoming, link, now, n);
    let (w, more_packets, more_events) = receiver_check_step(incoming[i], link, now);
    receiver_sweep_len(incoming, link, now, n - 1);
    if i < n - 1 {
        passes_reach_every_receiver(incoming, link, now, n - 1, i);
        if more_packets.len() > 0 {
            let k = choose|k: int| 0 <= k < packets.len() && packets[k] == more_packets[0];
            assert(all_packets[k] == more_packets[0]);
        }
        if more_events.len() > 0 {
            let k = choose|k: int| 0 <= k < events.len() && events[k] == more_events[0];
            assert(all_events[k] == more_events[0]);
        }
    } else {
        if more_packets.len() > 0 {
            assert(all_packets[packets.len() as int] == more_packets[0]);
        }
        if more_events.len() > 0 {
            assert(all_events[events.len() as int] == more_events[0]);
        }
    }
}

proof fn receiver_sweep_len(incoming: Seq<IncomingView>, link: Link, now: u64, n: int)
    requires
        0 <= n <= incoming.len(),
    ensures
        receiver_sweep(incoming, link, now, n).0.len() == n,
    decreases n,
{
    if n > 0 {
        receiver_sweep_len(incoming, link, now, n - 1);
    }
}

/// One resource at a time is offered on a link: while a transfer on it is under way, what is queued
/// stays queued.
pub proof fn busy_links_offer_nothing(
    out: Seq<OutgoingView>,
    link: Link,
    now: u64,
    n: int,
    i: int,
    active: int,
)
    requires
        0 <= i < n <= out.len(),
        out[i].status == ResourceStatus::Queued,
        0 <= active < out.len(),
        out[active].link_id == link.id,
        out[active].status == ResourceStatus::Advertised || out[active].status
            == ResourceStatus::Transferring || out[active].status == ResourceStatus::AwaitingProof,
    ensures
        sender_sweep(out, link, now, n).out.len() == n,
        sender_sweep(out, link, now, n).out[i] == out[i],
        !sender_sweep(out, link, now, n).advertised,
    decreases n,
{
    assert(link_active(out, link.id));
    sender_sweep_len(out, link, now, n - 1);
    if i < n - 1 {
        busy_links_offer_nothing(out, link, now, n - 1, i, active);
    } else {
        never_advertised(out, link, now, n);
    }
}

proof fn sender_sweep_len(out: Seq<OutgoingView>, link: Link, now: u64, n: int)
    requires
        0 <= n <= out.len(),
    ensures
        sender_sweep(out, link, now, n).out.len() == n,
    decreases n,
{
    if n > 0 {
        sender_sweep_len(out, link, now, n - 1);
    }
}

proof fn never_advertised(out: Seq<OutgoingView>, link: Link, now: u64, n: int)
    requires
        0 <= n <= out.len(),
        link_active(out, link.id),
    ensures
        !sender_sweep(out, link, now, n).advertised,
    decreases n,
{
    if n > 0 {
        never_advertised(out, link, now, n - 1);
    }
}

/// On a link on which nothing is under way the resource that has been queued longest is offered, and
/// the others that are queued wait.
pub proof fn idle_links_offer_the_oldest(
    out: Seq<OutgoingView>,
    link: Link,
    now: u64,
    n: int,
    first: int,
)
    requires
        0 <= first < n <= out.len(),
        out[first].link_id == link.id,
        out[first].status == ResourceStatus::Queued,
        forall|k: int|
            0 <= k < first ==> (#[trigger] out[k]).link_id != link.id || out[k].status
                != ResourceStatus::Queued,
        forall|k: int|
            0 <= k < out.len() && (#[trigger] out[k]).link_id == link.id ==> out[k].status
                == ResourceStatus::Queued || out[k].status == ResourceStatus::Complete
                || out[k].status == ResourceStatus::Failed || out[k].status
                == ResourceStatus::Corrupt || out[k].status == ResourceStatus::Rejected,
    ensures
        ({
            let sweep = sender_sweep(out, link, now, n);
            &&& sweep.out.len() == n
            &&& sweep.out[first].status == ResourceStatus::Advertised
            &&& sweep.packets.contains(advertisement_packet(out[first]))
            &&& sweep.advertised
            &&& forall|k: int|
                0 <= k < n && k != first && (#[trigger] out[k]).link_id == link.id && out[k].status
                    == ResourceStatus::Queued ==> sweep.out[k] == out[k]
        }),
    decreases n,
{
    assert(!link_active(out, link.id));
    let sweep = sender_sweep(out, link, now, n);
    let prior = sender_sweep(out, link, now, n - 1);
    sender_sweep_len(out, link, now, n - 1);
    if first < n - 1 {
        idle_links_offer_the_oldest(out, link, now, n - 1, first);
        let wanted = advertisement_packet(out[first]);
        let k = choose|k: int| 0 <= k < prior.packets.len() && prior.packets[k] == wanted;
        assert(sweep.packets[k] == wanted);
    } else {
        none_queued(out, link, now, n - 1);
        assert(sweep.packets[prior.packets.len() as int] == advertisement_packet(out[first]));
    }
    assert forall|k: int|
        0 <= k < n && k != first && (#[trigger] out[k]).link_id == link.id && out[k].status
            == ResourceStatus::Queued implies sweep.out[k] == out[k] by {
        if k < n - 1 {
            assert(sweep.out[k] == prior.out[k]);
        }
    }
}

proof fn none_queued(out: Seq<OutgoingView>, link: Link, now: u64, n: int)
    requires
        0 <= n <= out.len(),
        forall|k: int|
            0 <= k < n ==> (#[trigger] out[k]).link_id != link.id || out[k].status
                != ResourceStatus::Queued,
    ensures
        !sender_sweep(out, link, now, n).advertised,
    decreases n,
{
    if n > 0 {
        none_queued(out, link, now, n - 1);
        assert(out[n - 1].link_id != link.id || out[n - 1].status != ResourceStatus::Queued);
    }
}

/// A pass over the senders of a link does with each of them what it does with one alone.
pub proof fn passes_reach_every_sender(
    out: Seq<OutgoingView>,
    link: Link,
    now: u64,
    n: int,
    i: int,
)
    requires
        0 <= i < n <= out.len(),
        out[i].status != ResourceStatus::Queued,
    ensures
        ({
            let sweep = sender_sweep(out, link, now, n);
            let (w, packets, events) = sender_check_step(out[i], link, now, false);
            &&& sweep.out.len() == n
            &&& sweep.out[i] == w
            &&& packets.len() > 0 ==> sweep.packets.contains(packets[0])
            &&& events.len() > 0 ==> sweep.events.contains(events[0])
        }),
    decreases n,
{
    let sweep = sender_sweep(out, link, now, n);
    let prior = sender_sweep(out, link, now, n - 1);
    let (w, packets, events) = sender_check_step(out[i], link, now, false);
    sender_sweep_len(out, link, now, n - 1);
    if i < n - 1 {
        passes_reach_every_sender(out, link, now, n - 1, i);
        if packets.len() > 0 {
            let k = choose|k: int| 0 <= k < prior.packets.len() && prior.packets[k] == packets[0];
            assert(sweep.packets[k] == packets[0]);
        }
        if events.len() > 0 {
            let k = choose|k: int| 0 <= k < prior.events.len() && prior.events[k] == events[0];
            assert(sweep.events[k] == events[0]);
        }
    } else {
        if packets.len() > 0 {
            assert(sweep.packets[prior.packets.len() as int] == packets[0]);
        }
        if events.len() > 0 {
            assert(sweep.events[prior.events.len() as int] == events[0]);
        }
    }
}

/// A split assembly stays for five minutes after its last segment, unless it has grown more than
/// 1024 bytes above its announced size, or a receiver of one of its segments has ended without
/// success.
pub proof fn assemblies_last_five_minutes(
    incoming: Seq<IncomingView>,
    hash: crate::hash::Hash,
    assembly: SplitView,
    now: u64,
)
    requires
        assembly.next_index > 0,
        forall|i: int|
            0 <= i < incoming.len() && (#[trigger] incoming[i]).original_hash == hash
                ==> !incoming[i].split || (incoming[i].status != ResourceStatus::Failed
                && incoming[i].status != ResourceStatus::Corrupt && incoming[i].status
                != ResourceStatus::Rejected),
    ensures
        assembly_stays(incoming, hash, assembly, now) <==> now < assembly.last_activity
            + 300_000_000_000 && assembly.data.len() <= assembly.data_size + 1024,
{
    assert(!abandoned(incoming, hash));
}

/// The assembly of a split resource goes when a receiver of one of its segments has failed, was
/// corrupt or was turned down.
pub proof fn failed_assemblies_go(
    incoming: Seq<IncomingView>,
    hash: crate::hash::Hash,
    assembly: SplitView,
    now: u64,
    i: int,
)
    requires
        0 <= i < incoming.len(),
        incoming[i].split,
        incoming[i].original_hash == hash,
        incoming[i].status == ResourceStatus::Failed || incoming[i].status
            == ResourceStatus::Corrupt || incoming[i].status == ResourceStatus::Rejected,
    ensures
        !assembly_stays(incoming, hash, assembly, now),
{
    assert(abandoned(incoming, hash));
}

/// A pass goes over all links in turn; each finds what those before it left.
pub proof fn passes_go_over_all_links(
    out: Seq<OutgoingView>,
    incoming: Seq<IncomingView>,
    links: Seq<Link>,
    now: u64,
    n: int,
)
    requires
        0 <= n < links.len(),
    ensures
        crate::resource::watchdog::sender_sweeps(out, links, now, 0).0 == out,
        crate::resource::watchdog::receiver_sweeps(incoming, links, now, 0).0 == incoming,
        ({
            let (before, packets, events) = crate::resource::watchdog::sender_sweeps(
                out,
                links,
                now,
                n,
            );
            let sweep = sender_sweep(before, links[n], now, before.len() as int);
            crate::resource::watchdog::sender_sweeps(out, links, now, n + 1) == (
                sweep.out,
                packets + sweep.packets,
                events + sweep.events,
            )
        }),
        ({
            let (before, packets, events) = crate::resource::watchdog::receiver_sweeps(
                incoming,
                links,
                now,
                n,
            );
            let (after, more, told) = receiver_sweep(before, links[n], now, before.len() as int);
            crate::resource::watchdog::receiver_sweeps(incoming, links, now, n + 1) == (
                after,
                packets + more,
                events + told,
            )
        }),
{
}

} // verus!
