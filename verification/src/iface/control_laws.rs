//! What holds of the traffic control of an interface: when bursts begin and end, what is held and
//! released, and how announces share the airtime.

use vstd::prelude::*;

use crate::bytes;
use crate::iface::control;
use crate::iface::control::QueuedView;
use crate::iface::control_state::{
    after_egress_pr, after_hold, after_ingress, after_ingress_pr, after_queue, after_release,
    after_take, after_try, control_wf, first_held, first_queued, first_queued_bounds, held_at,
    live_queue, live_queue_kept, new_control, queued_at, ControlView,
};
use crate::packet::{PacketType, PacketView};

verus! {

/// Asking about announces touches nothing but the burst and the samples, of which at most the
/// oldest goes, and only when it is more than ten seconds old.
pub proof fn asking_keeps_the_rest(c: ControlView, now: u64)
    ensures
        ({
            let after = after_ingress(c, now).0;
            &&& after == (ControlView {
                ia: after.ia,
                burst_active: after.burst_active,
                burst_activated: after.burst_activated,
                held_release: after.held_release,
                ..c
            })
            &&& after.ia == c.ia || after.ia == c.ia.skip(1)
            &&& c.ia.len() <= 2 || now <= c.ia[0] + 10_000_000_000 ==> after.ia == c.ia
            &&& c.ingress_control && c.ia.len() > 2 && now > c.ia[0] + 10_000_000_000 ==> after.ia
                == c.ia.skip(1)
        }),
        ({
            let after = after_ingress_pr(c, now).0;
            &&& after == (ControlView {
                ip: after.ip,
                pr_burst_active: after.pr_burst_active,
                pr_burst_activated: after.pr_burst_activated,
                ..c
            })
            &&& after.ip == c.ip || after.ip == c.ip.skip(1)
            &&& c.ip.len() <= 2 || now <= c.ip[0] + 10_000_000_000 ==> after.ip == c.ip
            &&& c.ingress_control && c.ip.len() > 2 && now > c.ip[0] + 10_000_000_000 ==> after.ip
                == c.ip.skip(1)
        }),
        ({
            let after = after_egress_pr(c, now).0;
            &&& after == (ControlView { op: after.op, ..c })
            &&& after.op == c.op || after.op == c.op.skip(1)
            &&& c.op.len() <= 1 || now <= c.op[0] + 10_000_000_000 ==> after.op == c.op
            &&& c.egress_control && c.op.len() > 1 && now > c.op[0] + 10_000_000_000 ==> after.op
                == c.op.skip(1)
        }),
{
}

/// An interface without control limits nothing and keeps its state.
pub proof fn uncontrolled_passes_all(c: ControlView, now: u64)
    ensures
        !c.ingress_control ==> after_ingress(c, now) == (c, false) && after_ingress_pr(c, now) == (
            c,
            false,
        ),
        !c.egress_control ==> after_egress_pr(c, now) == (c, false),
{
}

/// Outside of a burst, announces are limited exactly when they come in more often than the limit,
/// which is the lower one while the interface is new. A burst begins then, and held announces
/// wait for the penalty to pass.
pub proof fn bursts_begin_above_the_limit(c: ControlView, limit: u64, now: u64)
    requires
        control_wf(c),
        c.ingress_control,
        !c.burst_active,
        c.created <= now,
        limit == (if now - c.created < c.params.ic_new_time {
            c.params.ic_burst_freq_new
        } else {
            c.params.ic_burst_freq
        }),
    ensures
        ({
            let (after, limited) = after_ingress(c, now);
            &&& limited <==> c.ia.len() > 2 && now > c.ia[0] && c.ia.len() * 1_000_000_000_000
                > limit * (now - c.ia[0])
            &&& after.burst_active == limited
            &&& limited ==> after.burst_activated == now
            &&& limited && now + c.params.ic_burst_penalty <= u64::MAX ==> after.held_release == now
                + c.params.ic_burst_penalty
            &&& !limited ==> after.burst_activated == c.burst_activated && after.held_release
                == c.held_release
        }),
{
    if c.ia.len() <= 2 || now <= c.ia[0] {
        assert(limit * 1 >= 0) by (nonlinear_arith)
            requires
                limit >= 0,
        ;
    }
}

/// During a burst all announces are limited. It ends exactly when the frequency is below the
/// limit, the hold time has passed and at least two samples are left; when it began and what is
/// held stay as they are.
pub proof fn bursts_end_when_it_is_quiet(c: ControlView, limit: u64, now: u64)
    requires
        control_wf(c),
        c.ingress_control,
        c.burst_active,
        c.created <= now,
        c.ia.len() > 2,
        now > c.ia[0],
        limit == (if now - c.created < c.params.ic_new_time {
            c.params.ic_burst_freq_new
        } else {
            c.params.ic_burst_freq
        }),
    ensures
        ({
            let (after, limited) = after_ingress(c, now);
            &&& limited
            &&& !after.burst_active <==> c.ia.len() * 1_000_000_000_000 < limit * (now - c.ia[0])
                && now > c.burst_activated + c.params.ic_burst_hold
            &&& after.burst_activated == c.burst_activated
            &&& after.held_release == c.held_release
        }),
{
}

/// With two samples or fewer no frequency is known: a burst begins by none, and ends after the
/// hold time where there are two.
pub proof fn few_samples_end_bursts(c: ControlView, now: u64)
    requires
        c.ingress_control,
        c.burst_active,
        c.ia.len() <= 2,
        c.params.ic_burst_freq > 0,
        c.params.ic_burst_freq_new > 0,
    ensures
        after_ingress(c, now).1,
        !after_ingress(c, now).0.burst_active <==> now > c.burst_activated + c.params.ic_burst_hold
            && c.ia.len() == 2,
{
    assert(c.params.ic_burst_freq * 1 > 0) by (nonlinear_arith)
        requires
            c.params.ic_burst_freq > 0,
    ;
    assert(c.params.ic_burst_freq_new * 1 > 0) by (nonlinear_arith)
        requires
            c.params.ic_burst_freq_new > 0,
    ;
}

/// Once a burst has ended, announces are let through again for as long as they do not come in
/// more often than the limit.
pub proof fn announces_pass_after_a_burst(
    c: ControlView,
    limit: u64,
    now: u64,
    next_limit: u64,
    soon: u64,
)
    requires
        control_wf(c),
        c.ingress_control,
        c.burst_active,
        c.created <= now <= soon,
        c.ia.len() > 2,
        now > c.ia[0],
        limit == (if now - c.created < c.params.ic_new_time {
            c.params.ic_burst_freq_new
        } else {
            c.params.ic_burst_freq
        }),
        c.ia.len() * 1_000_000_000_000 < limit * (now - c.ia[0]),
        now > c.burst_activated + c.params.ic_burst_hold,
        next_limit == (if soon - c.created < c.params.ic_new_time {
            c.params.ic_burst_freq_new
        } else {
            c.params.ic_burst_freq
        }),
        ({
            let left = after_ingress(c, now).0.ia;
            left.len() <= 2 || soon <= left[0] || left.len() * 1_000_000_000_000 <= next_limit * (
            soon - left[0])
        }),
    ensures
        ({
            let between = after_ingress(c, now).0;
            &&& !between.burst_active
            &&& !after_ingress(between, soon).1
            &&& !after_ingress(between, soon).0.burst_active
        }),
{
    bursts_end_when_it_is_quiet(c, limit, now);
    asking_keeps_the_rest(c, now);
    bursts_begin_above_the_limit(after_ingress(c, now).0, next_limit, soon);
}

/// Path requests are limited like announces, by limits of their own: a burst begins above the
/// limit and ends below it when the hold time has passed.
pub proof fn path_request_bursts_begin_and_end(c: ControlView, limit: u64, now: u64)
    requires
        control_wf(c),
        c.ingress_control,
        c.created <= now,
        c.ip.len() > 2,
        now > c.ip[0],
        limit == (if now - c.created < c.params.ic_new_time {
            c.params.ic_pr_burst_freq_new
        } else {
            c.params.ic_pr_burst_freq
        }),
    ensures
        ({
            let (after, limited) = after_ingress_pr(c, now);
            let count = c.ip.len() * 1_000_000_000_000;
            let allowed = limit * (now - c.ip[0]);
            &&& !c.pr_burst_active ==> (limited <==> count > allowed) && after.pr_burst_active
                == limited
            &&& !c.pr_burst_active && limited ==> after.pr_burst_activated == now
            &&& c.pr_burst_active ==> limited && after.pr_burst_activated == c.pr_burst_activated
            &&& c.pr_burst_active ==> (!after.pr_burst_active <==> count < allowed && now
                > c.pr_burst_activated + c.params.ic_burst_hold)
        }),
{
}

/// With two path requests or fewer no burst of them begins, and one that is on ends after the hold
/// time.
pub proof fn few_path_requests_are_no_burst(c: ControlView, now: u64)
    requires
        c.ingress_control,
        c.ip.len() <= 2,
        c.params.ic_pr_burst_freq > 0,
        c.params.ic_pr_burst_freq_new > 0,
    ensures
        !c.pr_burst_active ==> !after_ingress_pr(c, now).1 && !after_ingress_pr(
            c,
            now,
        ).0.pr_burst_active,
        c.pr_burst_active ==> after_ingress_pr(c, now).1,
        c.pr_burst_active ==> (!after_ingress_pr(c, now).0.pr_burst_active <==> now
            > c.pr_burst_activated + c.params.ic_burst_hold),
{
    assert(c.params.ic_pr_burst_freq * 1 > 0) by (nonlinear_arith)
        requires
            c.params.ic_pr_burst_freq > 0,
    ;
    assert(c.params.ic_pr_burst_freq_new * 1 > 0) by (nonlinear_arith)
        requires
            c.params.ic_pr_burst_freq_new > 0,
    ;
}

/// Outgoing path requests are limited exactly when at least six of them are on record and they go
/// out more often than the limit.
pub proof fn outgoing_path_requests_are_limited(c: ControlView, now: u64)
    requires
        control_wf(c),
        c.egress_control,
        c.op.len() > 1,
        now > c.op[0],
    ensures
        ({
            let (after, limited) = after_egress_pr(c, now);
            limited <==> c.op.len() * 1_000_000_000_000 > c.params.ec_pr_freq * (now - c.op[0])
                && after.op.len() >= 6
        }),
{
}

/// Few outgoing path requests are never limited.
pub proof fn few_outgoing_path_requests_pass(c: ControlView, now: u64)
    requires
        c.op.len() < 6,
    ensures
        !after_egress_pr(c, now).1,
{
}

/// A new interface controls what comes in, is not in a burst, holds and queues nothing, and
/// limits announces and path requests at three in a second for two hours, and at ten and eight
/// from then on.
pub proof fn new_interfaces_start_quiet(now: u64)
    ensures
        ({
            let c = new_control(now);
            &&& c.created == now
            &&& c.ingress_control && !c.egress_control
            &&& !c.burst_active && !c.pr_burst_active
            &&& c.held.len() == 0 && c.queue.len() == 0
            &&& c.ia.len() == 0 && c.oa.len() == 0 && c.ip.len() == 0 && c.op.len() == 0
            &&& c.announce_allowed_at == now
            &&& c.held_release == now
            &&& c.params.ic_burst_freq_new == 3 * 1000
            &&& c.params.ic_burst_freq == 10 * 1000
            &&& c.params.ic_pr_burst_freq_new == 3 * 1000
            &&& c.params.ic_pr_burst_freq == 8 * 1000
            &&& c.params.ec_pr_freq == 5 * 1000
            &&& c.params.ic_new_time == 2 * 60 * 60 * 1_000_000_000
            &&& c.params.ic_burst_hold == 15 * 1_000_000_000
            &&& c.params.ic_burst_penalty == 15 * 1_000_000_000
            &&& c.params.ic_held_release_interval == 5 * 1_000_000_000
            &&& c.params.ic_max_held_announces == 256
            &&& c.announce_cap == 2000
            &&& c.bitrate == 62500
        }),
{
}

/// A sample is the last one on record; the others stay, but for the oldest when there are
/// forty-eight already.
pub proof fn samples_are_recorded(samples: Seq<u64>, now: u64)
    requires
        samples.len() <= 48,
    ensures
        control::sampled(samples, now).last() == now,
        samples.len() < 48 ==> control::sampled(samples, now).drop_last() == samples,
        samples.len() == 48 ==> control::sampled(samples, now).drop_last() == samples.skip(1),
        control::sampled(samples, now).len() <= 48,
{
    if samples.len() < 48 {
        assert(control::sampled(samples, now).drop_last() =~= samples);
    } else {
        assert(control::sampled(samples, now).drop_last() =~= samples.skip(1));
    }
}

proof fn held_place(held: Seq<PacketView>, destination: crate::hash::AddressHash, from: int)
    requires
        0 <= from <= held.len(),
    ensures
        from <= held_at(held, destination, from) <= held.len(),
        held_at(held, destination, from) < held.len() ==> held[held_at(
            held,
            destination,
            from,
        )].destination == destination,
        forall|i: int|
            from <= i < held_at(held, destination, from) ==> (#[trigger] held[i]).destination
                != destination,
    decreases held.len() - from,
{
    if from < held.len() && held[from].destination != destination {
        held_place(held, destination, from + 1);
    }
}

/// An announce that has not come too far is held, in place of one for the same destination; it is
/// refused only when there is none and the limit is reached. What is held for other destinations
/// stays.
pub proof fn announces_are_held(c: ControlView, packet: PacketView, max_hops: u8)
    ensures
        ({
            let next = after_hold(c, packet, max_hops);
            let known = exists|i: int|
                0 <= i < c.held.len() && (#[trigger] c.held[i]).destination == packet.destination;
            let too_far = packet.header.hops + 1 >= max_hops;
            &&& next == (ControlView { held: next.held, ..c })
            &&& next.held.contains(packet) || next.held == c.held
            &&& !too_far && (known || c.held.len() < c.params.ic_max_held_announces)
                ==> next.held.contains(packet)
            &&& too_far || (!known && c.held.len() >= c.params.ic_max_held_announces) ==> next == c
            &&& next.held.len() == c.held.len() + (if !too_far && !known && c.held.len()
                < c.params.ic_max_held_announces {
                1int
            } else {
                0
            })
            &&& forall|i: int|
                0 <= i < c.held.len() && (#[trigger] c.held[i]).destination != packet.destination
                    ==> next.held[i] == c.held[i]
        }),
{
    held_place(c.held, packet.destination, 0);
    let at = held_at(c.held, packet.destination, 0);
    let next = after_hold(c, packet, max_hops);
    if packet.header.hops + 1 < max_hops {
        if at < c.held.len() {
            assert(next.held[at] == packet);
        } else if c.held.len() < c.params.ic_max_held_announces {
            assert(next.held[c.held.len() as int] == packet);
        }
    }
}

proof fn held_first(held: Seq<PacketView>, n: int)
    requires
        1 <= n <= held.len(),
    ensures
        0 <= first_held(held, n) < n,
        forall|i: int|
            0 <= i < n ==> {
                let first = held[first_held(held, n)];
                let other = #[trigger] held[i];
                ||| first.header.hops < other.header.hops
                ||| first.header.hops == other.header.hops && bytes::be_value(first.destination@)
                    <= bytes::be_value(other.destination@)
            },
    decreases n,
{
    if n > 1 {
        held_first(held, n - 1);
    }
}

/// Held announces come out again when the time for the next one has come and announces come in
/// below the limit, and only then. The one that comes out has come the fewest hops, and has the
/// lowest address of those; the others stay, in their order.
pub proof fn held_announces_are_released(c: ControlView, limit: u64, now: u64)
    requires
        control_wf(c),
        c.created <= now,
        limit > 0,
        limit == (if now - c.created < c.params.ic_new_time {
            c.params.ic_burst_freq_new
        } else {
            c.params.ic_burst_freq
        }),
    ensures
        ({
            let (after, released) = after_release(c, now);
            let quiet = c.ia.len() <= 2 || now <= c.ia[0] || c.ia.len() * 1_000_000_000_000 < limit
                * (now - c.ia[0]);
            &&& released is Some <==> c.held.len() > 0 && now > c.held_release && quiet
            &&& released is None ==> after.held == c.held && after.held_release == c.held_release
            &&& released is Some ==> {
                &&& forall|i: int|
                    0 <= i < c.held.len() ==> {
                        ||| (released->0).header.hops < (#[trigger] c.held[i]).header.hops
                        ||| (released->0).header.hops == c.held[i].header.hops && bytes::be_value(
                            (released->0).destination@,
                        ) <= bytes::be_value(c.held[i].destination@)
                    }
                &&& exists|at: int|
                    0 <= at < c.held.len() && c.held[at] == released->0 && after.held
                        == #[trigger] c.held.remove(at)
                &&& now + c.params.ic_held_release_interval <= u64::MAX ==> after.held_release
                    == now + c.params.ic_held_release_interval
            }
        }),
{
    if c.ia.len() <= 2 || now <= c.ia[0] {
        assert(limit * 1 > 0) by (nonlinear_arith)
            requires
                limit > 0,
        ;
    }
    if c.held.len() > 0 {
        held_first(c.held, c.held.len() as int);
        let at = first_held(c.held, c.held.len() as int);
        assert(c.held.remove(at) == c.held.remove(at));
    }
}

/// An announce goes out at once exactly when nothing is queued, there is a budget, and the airtime
/// of the one before has passed.
pub proof fn announces_go_out_within_the_budget(c: ControlView, size: nat, now: u64)
    ensures
        ({
            let (after, sent) = after_try(c, size, now);
            &&& sent <==> c.queue.len() == 0 && c.bitrate > 0 && c.announce_cap > 0 && now
                >= c.announce_allowed_at
            &&& !sent ==> after == c
            &&& after == (ControlView { announce_allowed_at: after.announce_allowed_at, ..c })
        }),
{
}

/// The budget is kept: an announce of so many bytes blocks the next one for as long as its bits
/// take at that share of the bitrate, to the nanosecond below.
pub proof fn airtime_is_the_share_of_the_bitrate(c: ControlView, size: nat, now: u64)
    requires
        after_try(c, size, now).1,
        after_try(c, size, now).0.announce_allowed_at < u64::MAX,
    ensures
        ({
            let wait = after_try(c, size, now).0.announce_allowed_at - now;
            let share = c.bitrate * c.announce_cap;
            &&& wait >= 0
            &&& wait * share <= size * 8 * 1_000_000_000_000 < (wait + 1) * share
        }),
{
    let share = c.bitrate * c.announce_cap;
    let work: int = (size * 8_000_000_000_000) as int;
    assert(share > 0) by (nonlinear_arith)
        requires
            share == c.bitrate * c.announce_cap,
            c.bitrate > 0,
            c.announce_cap > 0,
    ;
    let wait = work / share;
    assert(wait >= 0 && wait * share <= work < (wait + 1) * share) by (nonlinear_arith)
        requires
            share > 0,
            work >= 0,
            wait == work / share,
    ;
}

/// An announce taken from the queue is paid for like one that goes out at once.
pub proof fn queued_announces_pay_their_airtime(c: ControlView, size: nat, now: u64)
    requires
        c.bitrate > 0,
        c.announce_cap > 0,
        after_take(c, now).1 is Some,
        size == control::accounted_len(after_take(c, now).1->0),
    ensures
        after_take(c, now).0.announce_allowed_at == after_try(
            ControlView { queue: Seq::empty(), announce_allowed_at: now, ..c },
            size,
            now,
        ).0.announce_allowed_at,
{
}

proof fn queue_place(queue: Seq<QueuedView>, destination: crate::hash::AddressHash, from: int)
    requires
        0 <= from <= queue.len(),
    ensures
        from <= queued_at(queue, destination, from) <= queue.len(),
        queued_at(queue, destination, from) < queue.len() ==> queue[queued_at(
            queue,
            destination,
            from,
        )].packet.destination == destination,
        forall|i: int|
            from <= i < queued_at(queue, destination, from) ==> (
            #[trigger] queue[i]).packet.destination != destination,
    decreases queue.len() - from,
{
    if from < queue.len() && queue[from].packet.destination != destination {
        queue_place(queue, destination, from + 1);
    }
}

/// An announce for a destination that none is queued for goes to the end of the queue, while
/// there are fewer than 16384 in it, with the time and its own stamp. Nothing else is ever queued.
pub proof fn announces_are_queued(c: ControlView, packet: PacketView, now: u64)
    requires
        forall|i: int|
            0 <= i < c.queue.len() ==> (#[trigger] c.queue[i]).packet.destination
                != packet.destination,
    ensures
        ({
            let next = after_queue(c, packet, now);
            let taken = packet.header.packet_type == PacketType::Announce && c.queue.len() < 16384;
            &&& !taken ==> next == c
            &&& taken ==> next.queue.len() == c.queue.len() + 1
            &&& taken ==> next.queue.drop_last() == c.queue
            &&& taken ==> next.queue.last().packet == packet && next.queue.last().queued_at == now
            &&& next == (ControlView { queue: next.queue, ..c })
        }),
{
    queue_place(c.queue, packet.destination, 0);
    let next = after_queue(c, packet, now);
    if packet.header.packet_type == PacketType::Announce && c.queue.len() < 16384 {
        assert(next.queue.drop_last() =~= c.queue);
    }
}

/// An announce for a destination that one is queued for takes its place exactly when it was
/// emitted later; the rest of the queue stays.
pub proof fn later_announces_take_the_place(c: ControlView, packet: PacketView, now: u64, at: int)
    requires
        control_wf(c),
        packet.header.packet_type == PacketType::Announce,
        0 <= at < c.queue.len(),
        c.queue[at].packet.destination == packet.destination,
    ensures
        ({
            let next = after_queue(c, packet, now);
            let stamp = control::emitted_at(packet.data) as u64;
            &&& stamp <= c.queue[at].emitted ==> next == c
            &&& stamp > c.queue[at].emitted ==> next.queue == c.queue.update(
                at,
                (QueuedView { packet, queued_at: now, emitted: stamp }),
            )
        }),
{
    queue_place(c.queue, packet.destination, 0);
    let found = queued_at(c.queue, packet.destination, 0);
    assert(found == at) by {
        if found < at {
            assert(c.queue[found].packet.destination != c.queue[at].packet.destination);
        } else if at < found {
            assert(c.queue[at].packet.destination != packet.destination);
        }
    }
}

/// The stamp of an announce is the number in bytes 79 to 83 of its data, and zero where there are
/// none.
pub proof fn announces_carry_their_stamp(data: Seq<u8>, other: Seq<u8>)
    ensures
        data.len() >= 84 ==> control::emitted_at(data) == bytes::be_value(data.subrange(79, 84)),
        data.len() < 84 ==> control::emitted_at(data) == 0,
{
}

/// A queued announce is too old after a day, and not before.
pub proof fn announces_wait_for_a_day(entry: QueuedView, now: u64)
    requires
        entry.queued_at <= now,
    ensures
        control::is_stale(entry, now) <==> now - entry.queued_at > 24 * 60 * 60 * 1_000_000_000,
{
}

/// Of the queue nothing goes but what is older than a day.
pub proof fn fresh_announces_stay_queued(queue: Seq<QueuedView>, now: u64, i: int)
    requires
        0 <= i < queue.len(),
        now <= queue[i].queued_at + 24 * 60 * 60 * 1_000_000_000,
    ensures
        live_queue(queue, now).contains(queue[i]),
    decreases queue.len(),
{
    let rest = queue.drop_last();
    let live = live_queue(queue, now);
    if i == queue.len() - 1 {
        assert(live[live.len() - 1] == queue[i]);
    } else {
        assert(rest[i] == queue[i]);
        fresh_announces_stay_queued(rest, now, i);
        let before = live_queue(rest, now);
        let k = choose|k: int| 0 <= k < before.len() && before[k] == queue[i];
        assert(live[k] == queue[i]);
    }
}

/// Fresh announces are taken from the queue when the airtime before has passed, and one at a time:
/// the one that comes out is not older than a day, has come the fewest hops of all that are not,
/// and everything else that is fresh stays queued.
pub proof fn queued_announces_come_out(c: ControlView, now: u64, i: int)
    requires
        0 <= i < c.queue.len(),
        now <= c.queue[i].queued_at + 24 * 60 * 60 * 1_000_000_000,
    ensures
        ({
            let (after, taken) = after_take(c, now);
            &&& taken is Some <==> now >= c.announce_allowed_at
            &&& taken is Some ==> (taken->0).header.hops <= c.queue[i].packet.header.hops
            &&& taken is Some ==> after.queue.contains(c.queue[i]) || taken->0 == c.queue[i].packet
            &&& taken is Some ==> exists|k: int|
                0 <= k < c.queue.len() && (#[trigger] c.queue[k]).packet == taken->0 && now
                    <= c.queue[k].queued_at + 24 * 60 * 60 * 1_000_000_000
            &&& taken is None ==> after.queue.contains(c.queue[i])
        }),
{
    let live = live_queue(c.queue, now);
    fresh_announces_stay_queued(c.queue, now, i);
    live_queue_kept(c.queue, now);
    first_queued_bounds(live, live.len() as int);
    let at = first_queued(live, live.len() as int);
    let k = choose|k: int| 0 <= k < live.len() && live[k] == c.queue[i];
    assert(live[k].packet.header.hops >= live[at].packet.header.hops);
    assert(c.queue.contains(live[at]));
    let j = choose|j: int| 0 <= j < c.queue.len() && c.queue[j] == live[at];
    assert(!control::is_stale(live[at], now));
    assert(c.queue[j].packet == live[at].packet);
    if k < at {
        assert(live.remove(at)[k] == c.queue[i]);
    } else if k > at {
        assert(live.remove(at)[k - 1] == c.queue[i]);
    }
}

/// What is too old is dropped, not sent.
pub proof fn old_announces_are_not_sent(c: ControlView, now: u64)
    requires
        forall|i: int|
            0 <= i < c.queue.len() ==> now > (#[trigger] c.queue[i]).queued_at + 24 * 60 * 60
                * 1_000_000_000,
    ensures
        after_take(c, now).1 is None,
        after_take(c, now).0.queue.len() == 0,
{
    live_queue_kept(c.queue, now);
    let live = live_queue(c.queue, now);
    if live.len() > 0 {
        assert(c.queue.contains(live[0]) && !control::is_stale(live[0], now));
        let j = choose|j: int| 0 <= j < c.queue.len() && c.queue[j] == live[0];
        assert(now > c.queue[j].queued_at + 24 * 60 * 60 * 1_000_000_000);
    }
}

} // verus!
