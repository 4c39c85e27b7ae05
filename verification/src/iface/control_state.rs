//! The traffic control state of one interface.

use std::collections::VecDeque;

use vstd::prelude::*;

use crate::bytes;
use crate::hash::AddressHash;
use crate::iface::control;
use crate::iface::control::{
    announce_emitted, packet_wire_len, Frequency, IfaceControlParams, InterfaceMode,
    QueuedAnnounce, QueuedView, ANNOUNCE_CAP, AR_FREQ_DECAY, BURST_MIN_SAMPLES, DEQUE_MIN_SAMPLE,
    FREQ_SAMPLES, MAX_QUEUED_ANNOUNCES, PR_FREQ_DECAY,
};
use crate::packet::{Packet, PacketType, PacketView};

verus! {

/// The traffic control state of one interface.
pub struct IfaceControlState {
    pub created: u64,
    pub mode: InterfaceMode,
    /// Nominal bits per second.
    pub bitrate: u64,
    /// Airtime budget of announces, in thousandths.
    pub announce_cap: u64,
    pub ingress_control: bool,
    pub egress_control: bool,
    /// Recursive path requests always go out here.
    pub recursive_prs: bool,
    /// Announces from internal interfaces are taken.
    pub announces_from_internal: bool,
    /// Announces go on to internal interfaces, where this is said.
    pub announces_to_internal: Option<bool>,
    /// The peer is a local client of a shared instance.
    pub is_local_client: bool,
    /// The tunnel that the interface is bound to.
    pub tunnel_id: Option<AddressHash>,
    /// A tunnel is to be set up over the interface.
    pub wants_tunnel: bool,
    pub params: IfaceControlParams,
    /// From when on the next announce may be sent.
    pub announce_allowed_at: u64,
    /// When announces came in and went out, and path requests came in and went out.
    pub ia_freq_deque: VecDeque<u64>,
    pub oa_freq_deque: VecDeque<u64>,
    pub ip_freq_deque: VecDeque<u64>,
    pub op_freq_deque: VecDeque<u64>,
    pub ic_burst_active: bool,
    pub ic_burst_activated: u64,
    pub ic_pr_burst_active: bool,
    pub ic_pr_burst_activated: u64,
    /// From when on the next held announce may be released.
    pub ic_held_release: u64,
    pub held_announces: Vec<Packet>,
    pub announce_queue: Vec<QueuedAnnounce>,
}

/// The traffic control state of one interface, as a mathematical value.
#[verifier::ext_equal]
pub struct ControlView {
    pub created: u64,
    pub mode: InterfaceMode,
    pub bitrate: u64,
    pub announce_cap: u64,
    pub ingress_control: bool,
    pub egress_control: bool,
    pub recursive_prs: bool,
    pub announces_from_internal: bool,
    pub announces_to_internal: Option<bool>,
    pub is_local_client: bool,
    pub tunnel_id: Option<AddressHash>,
    pub wants_tunnel: bool,
    pub params: IfaceControlParams,
    pub announce_allowed_at: u64,
    pub ia: Seq<u64>,
    pub oa: Seq<u64>,
    pub ip: Seq<u64>,
    pub op: Seq<u64>,
    pub burst_active: bool,
    pub burst_activated: u64,
    pub pr_burst_active: bool,
    pub pr_burst_activated: u64,
    pub held_release: u64,
    pub held: Seq<PacketView>,
    pub queue: Seq<QueuedView>,
}

/// Packets as mathematical values.
pub open spec fn packet_views(packets: Seq<Packet>) -> Seq<PacketView> {
    packets.map_values(|p: Packet| p@)
}

/// Queued announces as mathematical values.
pub open spec fn queue_views(queue: Seq<QueuedAnnounce>) -> Seq<QueuedView> {
    queue.map_values(|q: QueuedAnnounce| q@)
}

impl View for IfaceControlState {
    type V = ControlView;

    open spec fn view(&self) -> ControlView {
        ControlView {
            created: self.created,
            mode: self.mode,
            bitrate: self.bitrate,
            announce_cap: self.announce_cap,
            ingress_control: self.ingress_control,
            egress_control: self.egress_control,
            recursive_prs: self.recursive_prs,
            announces_from_internal: self.announces_from_internal,
            announces_to_internal: self.announces_to_internal,
            is_local_client: self.is_local_client,
            tunnel_id: self.tunnel_id,
            wants_tunnel: self.wants_tunnel,
            params: self.params,
            announce_allowed_at: self.announce_allowed_at,
            ia: self.ia_freq_deque@,
            oa: self.oa_freq_deque@,
            ip: self.ip_freq_deque@,
            op: self.op_freq_deque@,
            burst_active: self.ic_burst_active,
            burst_activated: self.ic_burst_activated,
            pr_burst_active: self.ic_pr_burst_active,
            pr_burst_activated: self.ic_pr_burst_activated,
            held_release: self.ic_held_release,
            held: packet_views(self.held_announces@),
            queue: queue_views(self.announce_queue@),
        }
    }
}

/// No two held announces are for the same destination.
pub open spec fn held_unique(held: Seq<PacketView>) -> bool {
    forall|i: int, j: int|
        0 <= i < j < held.len() ==> (#[trigger] held[i]).destination != (
        #[trigger] held[j]).destination
}

/// No two queued announces are for the same destination.
pub open spec fn queue_unique(queue: Seq<QueuedView>) -> bool {
    forall|i: int, j: int|
        0 <= i < j < queue.len() ==> (#[trigger] queue[i]).packet.destination != (
        #[trigger] queue[j]).packet.destination
}

/// What every operation keeps: bounded samples, at most one announce per destination held and
/// queued, and a bounded queue.
pub open spec fn control_wf(c: ControlView) -> bool {
    &&& c.ia.len() <= FREQ_SAMPLES
    &&& c.oa.len() <= FREQ_SAMPLES
    &&& c.ip.len() <= FREQ_SAMPLES
    &&& c.op.len() <= FREQ_SAMPLES
    &&& held_unique(c.held)
    &&& queue_unique(c.queue)
    &&& c.queue.len() <= MAX_QUEUED_ANNOUNCES
}

/// The state of a new interface.
pub open spec fn new_control(now: u64) -> ControlView {
    ControlView {
        created: now,
        mode: InterfaceMode::Full,
        bitrate: 62500,
        announce_cap: ANNOUNCE_CAP,
        ingress_control: true,
        egress_control: false,
        recursive_prs: false,
        announces_from_internal: true,
        announces_to_internal: None,
        is_local_client: false,
        tunnel_id: None,
        wants_tunnel: false,
        params: control::default_params(),
        announce_allowed_at: now,
        ia: Seq::empty(),
        oa: Seq::empty(),
        ip: Seq::empty(),
        op: Seq::empty(),
        burst_active: false,
        burst_activated: now,
        pr_burst_active: false,
        pr_burst_activated: now,
        held_release: now,
        held: Seq::empty(),
        queue: Seq::empty(),
    }
}

/// The announce frequency that counts as a burst; new interfaces get less.
pub open spec fn burst_limit(c: ControlView, now: u64) -> u64 {
    if control::elapsed(c.created, now) < c.params.ic_new_time {
        c.params.ic_burst_freq_new
    } else {
        c.params.ic_burst_freq
    }
}

/// The path request frequency that counts as a burst.
pub open spec fn pr_burst_limit(c: ControlView, now: u64) -> u64 {
    if control::elapsed(c.created, now) < c.params.ic_new_time {
        c.params.ic_pr_burst_freq_new
    } else {
        c.params.ic_pr_burst_freq
    }
}

/// The state after the incoming announce frequency was measured.
pub open spec fn measured_ia(c: ControlView, now: u64) -> ControlView {
    ControlView {
        ia: control::measured(c.ia, AR_FREQ_DECAY, DEQUE_MIN_SAMPLE as nat, now),
        ..c
    }
}

/// The state after the incoming path request frequency was measured.
pub open spec fn measured_ip(c: ControlView, now: u64) -> ControlView {
    ControlView {
        ip: control::measured(c.ip, PR_FREQ_DECAY, DEQUE_MIN_SAMPLE as nat, now),
        ..c
    }
}

/// The state after the outgoing path request frequency was measured.
pub open spec fn measured_op(c: ControlView, now: u64) -> ControlView {
    ControlView { op: control::measured(c.op, PR_FREQ_DECAY, 1, now), ..c }
}

/// Whether announces are limited, and the state after asking.
pub open spec fn after_ingress(c: ControlView, now: u64) -> (ControlView, bool) {
    if !c.ingress_control {
        (c, false)
    } else {
        let limit = burst_limit(c, now);
        let frequency = control::frequency_of(c.ia, DEQUE_MIN_SAMPLE as nat, now);
        let m = measured_ia(c, now);
        if c.burst_active {
            let over = frequency.falls_below(limit) && now > c.burst_activated
                + c.params.ic_burst_hold && m.ia.len() >= DEQUE_MIN_SAMPLE;
            (ControlView { burst_active: !over, ..m }, true)
        } else if frequency.exceeds(limit) {
            (
                ControlView {
                    burst_active: true,
                    burst_activated: now,
                    held_release: control::later(now, c.params.ic_burst_penalty),
                    ..m
                },
                true,
            )
        } else {
            (m, false)
        }
    }
}

/// Whether path requests are limited, and the state after asking.
pub open spec fn after_ingress_pr(c: ControlView, now: u64) -> (ControlView, bool) {
    if !c.ingress_control {
        (c, false)
    } else {
        let limit = pr_burst_limit(c, now);
        let frequency = control::frequency_of(c.ip, DEQUE_MIN_SAMPLE as nat, now);
        let m = measured_ip(c, now);
        if c.pr_burst_active {
            let over = frequency.falls_below(limit) && now > c.pr_burst_activated
                + c.params.ic_burst_hold;
            (ControlView { pr_burst_active: !over, ..m }, true)
        } else if frequency.exceeds(limit) {
            (ControlView { pr_burst_active: true, pr_burst_activated: now, ..m }, true)
        } else {
            (m, false)
        }
    }
}

/// Whether outgoing path requests are limited, and the state after asking.
pub open spec fn after_egress_pr(c: ControlView, now: u64) -> (ControlView, bool) {
    if !c.egress_control {
        (c, false)
    } else {
        let m = measured_op(c, now);
        (
            m,
            control::frequency_of(c.op, 1, now).exceeds(c.params.ec_pr_freq) && m.op.len()
                >= BURST_MIN_SAMPLES,
        )
    }
}

/// Where the announce for a destination is held, or the number of held announces.
pub open spec fn held_at(held: Seq<PacketView>, destination: AddressHash, from: int) -> int
    decreases held.len() - from,
{
    if from < 0 || from >= held.len() {
        held.len() as int
    } else if held[from].destination == destination {
        from
    } else {
        held_at(held, destination, from + 1)
    }
}

/// The state after an announce was offered for holding.
pub open spec fn after_hold(c: ControlView, packet: PacketView, max_hops: u8) -> ControlView {
    let at = held_at(c.held, packet.destination, 0);
    if packet.header.hops + 1 >= max_hops {
        c
    } else if at < c.held.len() {
        ControlView { held: c.held.update(at, packet), ..c }
    } else if c.held.len() >= c.params.ic_max_held_announces {
        c
    } else {
        ControlView { held: c.held.push(packet), ..c }
    }
}

/// Whether a held announce is released before another: fewer hops, then the lower address.
pub open spec fn released_first(a: PacketView, b: PacketView) -> bool {
    a.header.hops < b.header.hops || (a.header.hops == b.header.hops && bytes::be_value(
        a.destination@,
    ) < bytes::be_value(b.destination@))
}

/// Which of the first `n` held announces is released first.
pub open spec fn first_held(held: Seq<PacketView>, n: int) -> int
    decreases n,
{
    if n <= 1 {
        0
    } else {
        let best = first_held(held, n - 1);
        if released_first(held[n - 1], held[best]) {
            n - 1
        } else {
            best
        }
    }
}

/// What is released now, and the state after that.
pub open spec fn after_release(c: ControlView, now: u64) -> (ControlView, Option<PacketView>) {
    if c.held.len() == 0 || now <= c.held_release {
        (c, None)
    } else {
        let frequency = control::frequency_of(c.ia, DEQUE_MIN_SAMPLE as nat, now);
        let m = measured_ia(c, now);
        if !frequency.falls_below(burst_limit(c, now)) {
            (m, None)
        } else {
            let at = first_held(c.held, c.held.len() as int);
            (
                ControlView {
                    held_release: control::later(now, c.params.ic_held_release_interval),
                    held: c.held.remove(at),
                    ..m
                },
                Some(c.held[at]),
            )
        }
    }
}

/// How long the budget is used up by a packet of so many bytes, in nanoseconds.
pub open spec fn cap_wait(bitrate: u64, announce_cap: u64, size: nat) -> u64 {
    if bitrate == 0 {
        0
    } else {
        let wait = (size * 8_000_000_000_000) / (bitrate as nat * announce_cap as nat);
        if wait <= u64::MAX {
            wait as u64
        } else {
            u64::MAX
        }
    }
}

/// Whether an announce may be sent now, and the state after asking.
pub open spec fn after_try(c: ControlView, size: nat, now: u64) -> (ControlView, bool) {
    if c.queue.len() > 0 || c.bitrate == 0 || c.announce_cap == 0 || now < c.announce_allowed_at {
        (c, false)
    } else {
        (
            ControlView {
                announce_allowed_at: control::later(
                    now,
                    cap_wait(c.bitrate, c.announce_cap, size),
                ),
                ..c
            },
            true,
        )
    }
}

/// Where the announce for a destination is queued, or the length of the queue.
pub open spec fn queued_at(queue: Seq<QueuedView>, destination: AddressHash, from: int) -> int
    decreases queue.len() - from,
{
    if from < 0 || from >= queue.len() {
        queue.len() as int
    } else if queue[from].packet.destination == destination {
        from
    } else {
        queued_at(queue, destination, from + 1)
    }
}

/// The state after an announce was offered for queueing.
pub open spec fn after_queue(c: ControlView, packet: PacketView, now: u64) -> ControlView {
    if packet.header.packet_type != PacketType::Announce {
        c
    } else {
        let emitted = control::emitted_at(packet.data) as u64;
        let entry = QueuedView { packet, queued_at: now, emitted };
        let at = queued_at(c.queue, packet.destination, 0);
        if at < c.queue.len() {
            if emitted > c.queue[at].emitted {
                ControlView { queue: c.queue.update(at, entry), ..c }
            } else {
                c
            }
        } else if c.queue.len() >= MAX_QUEUED_ANNOUNCES {
            c
        } else {
            ControlView { queue: c.queue.push(entry), ..c }
        }
    }
}

/// The queued announces that are not too old.
pub open spec fn live_queue(queue: Seq<QueuedView>, now: u64) -> Seq<QueuedView>
    decreases queue.len(),
{
    if queue.len() == 0 {
        Seq::empty()
    } else if control::is_stale(queue.last(), now) {
        live_queue(queue.drop_last(), now)
    } else {
        live_queue(queue.drop_last(), now).push(queue.last())
    }
}

/// Which of the first `n` queued announces is sent first: the oldest with the fewest hops.
pub open spec fn first_queued(queue: Seq<QueuedView>, n: int) -> int
    decreases n,
{
    if n <= 1 {
        0
    } else {
        let best = first_queued(queue, n - 1);
        if queue[n - 1].packet.header.hops < queue[best].packet.header.hops {
            n - 1
        } else {
            best
        }
    }
}

/// The queued announce to send now, and the state after that.
pub open spec fn after_take(c: ControlView, now: u64) -> (ControlView, Option<PacketView>) {
    let live = live_queue(c.queue, now);
    if live.len() == 0 || now < c.announce_allowed_at {
        (ControlView { queue: live, ..c }, None)
    } else {
        let at = first_queued(live, live.len() as int);
        let packet = live[at].packet;
        (
            ControlView {
                queue: live.remove(at),
                announce_allowed_at: control::later(
                    now,
                    cap_wait(c.bitrate, c.announce_cap, control::accounted_len(packet)),
                ),
                ..c
            },
            Some(packet),
        )
    }
}

/// Whether the next queued announce can be taken, or there is none to take now: with a bitrate and
/// no budget at all there is no airtime to reserve for it.
pub open spec fn can_take(c: ControlView, now: u64) -> bool {
    c.bitrate > 0 && c.announce_cap == 0 ==> live_queue(c.queue, now).len() == 0 || now
        < c.announce_allowed_at
}

/// A longer queue has no fewer live announces.
proof fn live_queue_grows(queue: Seq<QueuedView>, now: u64, n: int)
    requires
        0 <= n <= queue.len(),
    ensures
        live_queue(queue.take(n), now).len() <= live_queue(queue, now).len(),
    decreases queue.len() - n,
{
    if n < queue.len() {
        live_queue_grows(queue, now, n + 1);
        assert(queue.take(n + 1).drop_last() =~= queue.take(n));
    } else {
        assert(queue.take(n) =~= queue);
    }
}

/// An optional packet, as a mathematical value.
pub open spec fn packet_view(packet: Option<Packet>) -> Option<PacketView> {
    match packet {
        Some(packet) => Some(packet@),
        None => None,
    }
}

proof fn held_at_bounds(held: Seq<PacketView>, destination: AddressHash, from: int)
    requires
        0 <= from <= held.len(),
    ensures
        from <= held_at(held, destination, from) <= held.len(),
        held_at(held, destination, from) < held.len() ==> held[held_at(
            held,
            destination,
            from,
        )].destination == destination,
        forall|i: int|
            from <= i < held_at(held, destination, from) ==> (#[trigger] held[i]).destination
                != destination,
    decreases held.len() - from,
{
    if from < held.len() && held[from].destination != destination {
        held_at_bounds(held, destination, from + 1);
    }
}

proof fn queued_at_bounds(queue: Seq<QueuedView>, destination: AddressHash, from: int)
    requires
        0 <= from <= queue.len(),
    ensures
        from <= queued_at(queue, destination, from) <= queue.len(),
        queued_at(queue, destination, from) < queue.len() ==> queue[queued_at(
            queue,
            destination,
            from,
        )].packet.destination == destination,
        forall|i: int|
            from <= i < queued_at(queue, destination, from) ==> (
            #[trigger] queue[i]).packet.destination != destination,
    decreases queue.len() - from,
{
    if from < queue.len() && queue[from].packet.destination != destination {
        queued_at_bounds(queue, destination, from + 1);
    }
}

proof fn first_held_bounds(held: Seq<PacketView>, n: int)
    requires
        1 <= n <= held.len(),
    ensures
        0 <= first_held(held, n) < n,
        forall|i: int|
            0 <= i < n ==> !released_first(#[trigger] held[i], held[first_held(held, n)]),
    decreases n,
{
    if n > 1 {
        first_held_bounds(held, n - 1);
    }
}

/// What the first queued announce is: the oldest with the fewest hops.
pub proof fn first_queued_bounds(queue: Seq<QueuedView>, n: int)
    requires
        1 <= n <= queue.len(),
    ensures
        0 <= first_queued(queue, n) < n,
        forall|i: int|
            0 <= i < n ==> (#[trigger] queue[i]).packet.header.hops >= queue[first_queued(
                queue,
                n,
            )].packet.header.hops,
        forall|i: int|
            0 <= i < first_queued(queue, n) ==> (#[trigger] queue[i]).packet.header.hops
                > queue[first_queued(queue, n)].packet.header.hops,
    decreases n,
{
    if n > 1 {
        first_queued_bounds(queue, n - 1);
    }
}

/// Live announces are queued announces, in the order of the queue.
pub proof fn live_queue_kept(queue: Seq<QueuedView>, now: u64)
    ensures
        live_queue(queue, now).len() <= queue.len(),
        queue_unique(queue) ==> queue_unique(live_queue(queue, now)),
        forall|i: int|
            0 <= i < live_queue(queue, now).len() ==> queue.contains(
                #[trigger] live_queue(queue, now)[i],
            ) && !control::is_stale(live_queue(queue, now)[i], now),
    decreases queue.len(),
{
    if queue.len() > 0 {
        let rest = queue.drop_last();
        live_queue_kept(rest, now);
        let live = live_queue(queue, now);
        let before = live_queue(rest, now);
        assert forall|i: int| 0 <= i < live.len() implies queue.contains(#[trigger] live[i])
            && !control::is_stale(live[i], now) by {
            if i < before.len() {
                assert(live[i] == before[i]);
                let k = choose|k: int| 0 <= k < rest.len() && rest[k] == before[i];
                assert(queue[k] == live[i]);
            } else {
                assert(live[i] == queue[queue.len() - 1]);
            }
        }
        if queue_unique(queue) {
            assert(queue_unique(rest)) by {
                assert forall|i: int, j: int| 0 <= i < j < rest.len() implies (
                #[trigger] rest[i]).packet.destination != (#[trigger] rest[j]).packet.destination by {
                    assert(queue[i].packet.destination != queue[j].packet.destination);
                }
            }
            assert forall|i: int, j: int| 0 <= i < j < live.len() implies (
            #[trigger] live[i]).packet.destination != (#[trigger] live[j]).packet.destination by {
                assert(live[i] == before[i]);
                if j < before.len() {
                    assert(live[j] == before[j]);
                } else {
                    let k = choose|k: int| 0 <= k < rest.len() && rest[k] == before[i];
                    assert(queue[k].packet.destination
                        != queue[queue.len() - 1].packet.destination);
                }
            }
        }
    }
}

/// The operations of the state keep what [`control_wf`] says.
pub proof fn operations_keep_wf(
    c: ControlView,
    packet: PacketView,
    max_hops: u8,
    size: nat,
    now: u64,
)
    requires
        control_wf(c),
    ensures
        control_wf(after_ingress(c, now).0),
        control_wf(after_ingress_pr(c, now).0),
        control_wf(after_egress_pr(c, now).0),
        control_wf(after_hold(c, packet, max_hops)),
        control_wf(after_release(c, now).0),
        control_wf(after_try(c, size, now).0),
        control_wf(after_queue(c, packet, now)),
        control_wf(after_take(c, now).0),
        control_wf(ControlView { ia: control::sampled(c.ia, now), ..c }),
        control_wf(ControlView { oa: control::sampled(c.oa, now), ..c }),
        control_wf(ControlView { ip: control::sampled(c.ip, now), ..c }),
        control_wf(ControlView { op: control::sampled(c.op, now), ..c }),
{
    hold_keeps_unique(c, packet, max_hops);
    release_keeps_unique(c, now);
    queue_keeps_unique(c, packet, now);
    take_keeps_unique(c, now);
}

proof fn hold_keeps_unique(c: ControlView, packet: PacketView, max_hops: u8)
    requires
        control_wf(c),
    ensures
        control_wf(after_hold(c, packet, max_hops)),
{
    held_at_bounds(c.held, packet.destination, 0);
    let next = after_hold(c, packet, max_hops).held;
    assert forall|i: int, j: int| 0 <= i < j < next.len() implies (
    #[trigger] next[i]).destination != (#[trigger] next[j]).destination by {
        let at = held_at(c.held, packet.destination, 0);
        if next.len() > c.held.len() && j == c.held.len() {
            assert(c.held[i].destination != packet.destination);
        } else {
            assert(c.held[i].destination != c.held[j].destination);
        }
    }
}

proof fn release_keeps_unique(c: ControlView, now: u64)
    requires
        control_wf(c),
    ensures
        control_wf(after_release(c, now).0),
{
    if c.held.len() > 0 {
        first_held_bounds(c.held, c.held.len() as int);
    }
    let next = after_release(c, now).0.held;
    if next.len() < c.held.len() {
        let at = first_held(c.held, c.held.len() as int);
        assert forall|i: int, j: int| 0 <= i < j < next.len() implies (
        #[trigger] next[i]).destination != (#[trigger] next[j]).destination by {
            let oi = if i < at {
                i
            } else {
                i + 1
            };
            let oj = if j < at {
                j
            } else {
                j + 1
            };
            assert(c.held[oi].destination != c.held[oj].destination);
        }
    }
}

proof fn queue_keeps_unique(c: ControlView, packet: PacketView, now: u64)
    requires
        control_wf(c),
    ensures
        control_wf(after_queue(c, packet, now)),
{
    queued_at_bounds(c.queue, packet.destination, 0);
    let next = after_queue(c, packet, now).queue;
    assert forall|i: int, j: int| 0 <= i < j < next.len() implies (
    #[trigger] next[i]).packet.destination != (#[trigger] next[j]).packet.destination by {
        if next.len() > c.queue.len() && j == c.queue.len() {
            assert(c.queue[i].packet.destination != packet.destination);
        } else {
            assert(c.queue[i].packet.destination != c.queue[j].packet.destination);
        }
    }
}

proof fn take_keeps_unique(c: ControlView, now: u64)
    requires
        control_wf(c),
    ensures
        control_wf(after_take(c, now).0),
{
    live_queue_kept(c.queue, now);
    let live = live_queue(c.queue, now);
    if live.len() > 0 {
        first_queued_bounds(live, live.len() as int);
    }
    let next = after_take(c, now).0.queue;
    if next.len() < live.len() {
        let at = first_queued(live, live.len() as int);
        assert forall|i: int, j: int| 0 <= i < j < next.len() implies (
        #[trigger] next[i]).packet.destination != (#[trigger] next[j]).packet.destination by {
            let oi = if i < at {
                i
            } else {
                i + 1
            };
            let oj = if j < at {
                j
            } else {
                j + 1
            };
            assert(live[oi].packet.destination != live[oj].packet.destination);
        }
    }
}

/// Releasing goes by hops, then address, and one at a time: what comes out is held, nothing held
/// comes before it, the others stay held, and the next comes no earlier than the interval says.
pub proof fn releases_in_order(c: ControlView, now: u64, soon: u64)
    requires
        after_release(c, now).1 is Some,
    ensures
        c.held.contains(after_release(c, now).1->0),
        forall|i: int|
            0 <= i < c.held.len() ==> !released_first(
                #[trigger] c.held[i],
                after_release(c, now).1->0,
            ),
        after_release(c, now).0.held.len() == c.held.len() - 1,
        soon <= control::later(now, c.params.ic_held_release_interval) ==> after_release(
            after_release(c, now).0,
            soon,
        ).1 is None,
{
    first_held_bounds(c.held, c.held.len() as int);
}

/// Queued announces go by hops, then age: what comes out is queued and not too old, no live one
/// has fewer hops, and those with as few came later.
pub proof fn takes_in_order(c: ControlView, now: u64)
    requires
        after_take(c, now).1 is Some,
    ensures
        ({
            let live = live_queue(c.queue, now);
            let at = first_queued(live, live.len() as int);
            let taken = live[at];
            &&& after_take(c, now).1 == Some(taken.packet)
            &&& c.queue.contains(taken)
            &&& !control::is_stale(taken, now)
            &&& forall|i: int|
                0 <= i < live.len() ==> (#[trigger] live[i]).packet.header.hops
                    >= taken.packet.header.hops
            &&& forall|i: int|
                0 <= i < at ==> (#[trigger] live[i]).packet.header.hops
                    > taken.packet.header.hops
        }),
{
    let live = live_queue(c.queue, now);
    live_queue_kept(c.queue, now);
    first_queued_bounds(live, live.len() as int);
    assert(c.queue.contains(live[first_queued(live, live.len() as int)]));
}

/// Airtime is spent once: after an announce was sent, none is sent or taken from the queue until
/// its share of the budget has passed.
pub proof fn airtime_is_spent_once(c: ControlView, size: nat, now: u64, soon: u64)
    requires
        soon < control::later(now, cap_wait(c.bitrate, c.announce_cap, size)),
        after_try(c, size, now).1,
    ensures
        !after_try(after_try(c, size, now).0, size, soon).1,
        after_take(after_try(c, size, now).0, soon).1 is None,
{
}

/// An announce of the queue goes before one that has just come in.
pub proof fn queue_goes_first(c: ControlView, size: nat, now: u64)
    requires
        c.queue.len() > 0,
    ensures
        !after_try(c, size, now).1,
{
}

/// A queued announce is only replaced by one emitted later.
pub proof fn newer_announces_replace(c: ControlView, packet: PacketView, now: u64)
    requires
        control_wf(c),
    ensures
        ({
            let next = after_queue(c, packet, now).queue;
            &&& next.len() >= c.queue.len()
            &&& forall|i: int|
                0 <= i < c.queue.len() ==> (#[trigger] next[i]).packet.destination
                    == c.queue[i].packet.destination && next[i].emitted >= c.queue[i].emitted
        }),
{
    queued_at_bounds(c.queue, packet.destination, 0);
}

/// Holding is bounded: what is held never grows past the limit.
pub proof fn holding_is_bounded(c: ControlView, packet: PacketView, max_hops: u8)
    ensures
        after_hold(c, packet, max_hops).held.len() <= c.held.len() || after_hold(
            c,
            packet,
            max_hops,
        ).held.len() <= c.params.ic_max_held_announces,
{
    held_at_bounds(c.held, packet.destination, 0);
}

/// A burst lasts at least as long as the hold time says, and limits announces all the while.
pub proof fn bursts_are_held(c: ControlView, now: u64)
    requires
        c.ingress_control,
        c.burst_active,
    ensures
        after_ingress(c, now).1,
        now <= c.burst_activated + c.params.ic_burst_hold ==> after_ingress(c, now).0.burst_active,
{
}

impl IfaceControlState {
    /// What every operation keeps.
    pub open spec fn wf(&self) -> bool {
        control_wf(self@)
    }

    /// The state of a new interface.
    pub fn new(now: u64) -> (r: Self)
        ensures
            r@ == new_control(now),
            r.wf(),
    {
        let r: IfaceControlState = IfaceControlState {
            created: now,
            mode: InterfaceMode::Full,
            bitrate: 62500,
            announce_cap: ANNOUNCE_CAP,
            ingress_control: true,
            egress_control: false,
            recursive_prs: false,
            announces_from_internal: true,
            announces_to_internal: None,
            is_local_client: false,
            tunnel_id: None,
            wants_tunnel: false,
            params: IfaceControlParams::default(),
            announce_allowed_at: now,
            ia_freq_deque: VecDeque::new(),
            oa_freq_deque: VecDeque::new(),
            ip_freq_deque: VecDeque::new(),
            op_freq_deque: VecDeque::new(),
            ic_burst_active: false,
            ic_burst_activated: now,
            ic_pr_burst_active: false,
            ic_pr_burst_activated: now,
            ic_held_release: now,
            held_announces: Vec::new(),
            announce_queue: Vec::new(),
        };
        assert(r@ =~= new_control(now));
        r
    }

    /// Sets the limits.
    pub fn set_params(&mut self, params: IfaceControlParams)
        ensures
            final(self)@ == (ControlView { params, ..old(self)@ }),
    {
        self.params = params;
    }

    /// The limits.
    pub fn params(&self) -> (r: &IfaceControlParams)
        ensures
            *r == self@.params,
    {
        &self.params
    }

    /// How long the interface has existed.
    pub fn age(&self, now: u64) -> (r: u64)
        ensures
            r == control::elapsed(self@.created, now),
    {
        control::since(self.created, now)
    }

    /// An announce came in.
    pub fn received_announce(&mut self, now: u64)
        requires
            old(self).wf(),
        ensures
            final(self)@ == (ControlView {
                ia: control::sampled(old(self)@.ia, now),
                ..old(self)@
            }),
            final(self).wf(),
    {
        control::push_sample(&mut self.ia_freq_deque, now);
    }

    /// An announce went out.
    pub fn sent_announce(&mut self, now: u64)
        requires
            old(self).wf(),
        ensures
            final(self)@ == (ControlView {
                oa: control::sampled(old(self)@.oa, now),
                ..old(self)@
            }),
            final(self).wf(),
    {
        control::push_sample(&mut self.oa_freq_deque, now);
    }

    /// A path request came in.
    pub fn received_path_request(&mut self, now: u64)
        requires
            old(self).wf(),
        ensures
            final(self)@ == (ControlView {
                ip: control::sampled(old(self)@.ip, now),
                ..old(self)@
            }),
            final(self).wf(),
    {
        control::push_sample(&mut self.ip_freq_deque, now);
    }

    /// A path request went out.
    pub fn sent_path_request(&mut self, now: u64)
        requires
            old(self).wf(),
        ensures
            final(self)@ == (ControlView {
                op: control::sampled(old(self)@.op, now),
                ..old(self)@
            }),
            final(self).wf(),
    {
        control::push_sample(&mut self.op_freq_deque, now);
    }

    /// How often announces come in.
    pub fn incoming_announce_frequency(&mut self, now: u64) -> (r: Frequency)
        requires
            old(self).wf(),
        ensures
            r == control::frequency_of(old(self)@.ia, DEQUE_MIN_SAMPLE as nat, now),
            final(self)@ == measured_ia(old(self)@, now),
            final(self).wf(),
    {
        control::frequency(&mut self.ia_freq_deque, AR_FREQ_DECAY, DEQUE_MIN_SAMPLE, now)
    }

    /// How often announces go out.
    pub fn outgoing_announce_frequency(&mut self, now: u64) -> (r: Frequency)
        requires
            old(self).wf(),
        ensures
            r == control::frequency_of(old(self)@.oa, 1, now),
            final(self)@ == (ControlView {
                oa: control::measured(old(self)@.oa, AR_FREQ_DECAY, 1, now),
                ..old(self)@
            }),
            final(self).wf(),
    {
        control::frequency(&mut self.oa_freq_deque, AR_FREQ_DECAY, 1, now)
    }

    /// How often path requests come in.
    pub fn incoming_pr_frequency(&mut self, now: u64) -> (r: Frequency)
        requires
            old(self).wf(),
        ensures
            r == control::frequency_of(old(self)@.ip, DEQUE_MIN_SAMPLE as nat, now),
            final(self)@ == measured_ip(old(self)@, now),
            final(self).wf(),
    {
        control::frequency(&mut self.ip_freq_deque, PR_FREQ_DECAY, DEQUE_MIN_SAMPLE, now)
    }

    /// How often path requests go out.
    pub fn outgoing_pr_frequency(&mut self, now: u64) -> (r: Frequency)
        requires
            old(self).wf(),
        ensures
            r == control::frequency_of(old(self)@.op, 1, now),
            final(self)@ == measured_op(old(self)@, now),
            final(self).wf(),
    {
        control::frequency(&mut self.op_freq_deque, PR_FREQ_DECAY, 1, now)
    }

    /// Whether announces that come in are limited now. A burst begins when they come in too often,
    /// and ends when they no longer do and it has lasted long enough.
    pub fn should_ingress_limit(&mut self, now: u64) -> (r: bool)
        requires
            old(self).wf(),
        ensures
            (final(self)@, r) == after_ingress(old(self)@, now),
            final(self).wf(),
    {
        if !self.ingress_control {
            return false;
        }
        let limit: u64 = if self.age(now) < self.params.ic_new_time {
            self.params.ic_burst_freq_new
        } else {
            self.params.ic_burst_freq
        };
        let frequency: Frequency = self.incoming_announce_frequency(now);
        if self.ic_burst_active {
            if frequency.is_below(limit) && now as u128 > self.ic_burst_activated as u128
                + self.params.ic_burst_hold as u128 && self.ia_freq_deque.len()
                >= DEQUE_MIN_SAMPLE {
                self.ic_burst_active = false;
            }
            true
        } else if frequency.is_above(limit) {
            self.ic_burst_active = true;
            self.ic_burst_activated = now;
            self.ic_held_release = now.saturating_add(self.params.ic_burst_penalty);
            true
        } else {
            false
        }
    }

    /// Whether path requests that come in are limited now.
    pub fn should_ingress_limit_pr(&mut self, now: u64) -> (r: bool)
        requires
            old(self).wf(),
        ensures
            (final(self)@, r) == after_ingress_pr(old(self)@, now),
            final(self).wf(),
    {
        if !self.ingress_control {
            return false;
        }
        let limit: u64 = if self.age(now) < self.params.ic_new_time {
            self.params.ic_pr_burst_freq_new
        } else {
            self.params.ic_pr_burst_freq
        };
        let frequency: Frequency = self.incoming_pr_frequency(now);
        if self.ic_pr_burst_active {
            if frequency.is_below(limit) && now as u128 > self.ic_pr_burst_activated as u128
                + self.params.ic_burst_hold as u128 {
                self.ic_pr_burst_active = false;
            }
            true
        } else if frequency.is_above(limit) {
            self.ic_pr_burst_active = true;
            self.ic_pr_burst_activated = now;
            true
        } else {
            false
        }
    }

    /// Whether path requests that go out are limited now.
    pub fn should_egress_limit_pr(&mut self, now: u64) -> (r: bool)
        requires
            old(self).wf(),
        ensures
            (final(self)@, r) == after_egress_pr(old(self)@, now),
            final(self).wf(),
    {
        if !self.egress_control {
            return false;
        }
        let frequency: Frequency = self.outgoing_pr_frequency(now);
        frequency.is_above(self.params.ec_pr_freq) && self.op_freq_deque.len()
            >= BURST_MIN_SAMPLES
    }

    /// Where the announce for a destination is held, or the number of held announces.
    fn find_held(&self, destination: &AddressHash) -> (r: usize)
        ensures
            r == held_at(self@.held, *destination, 0),
            r <= self@.held.len(),
    {
        let mut i: usize = 0;
        while i < self.held_announces.len()
            invariant
                i <= self.held_announces@.len(),
                held_at(self@.held, *destination, 0) == held_at(
                    self@.held,
                    *destination,
                    i as int,
                ),
            decreases self.held_announces@.len() - i,
        {
            assert(self@.held[i as int] == self.held_announces@[i as int]@);
            if self.held_announces[i].destination.same(destination) {
                return i;
            }
            i += 1;
        }
        i
    }

    /// Holds an announce back, unless it has come as far as it may or too many are held. It
    /// replaces the one for the same destination.
    pub fn hold_announce(&mut self, packet: &Packet, max_hops: u8)
        requires
            old(self).wf(),
        ensures
            final(self)@ == after_hold(old(self)@, packet@, max_hops),
            final(self).wf(),
    {
        proof {
            hold_keeps_unique(self@, packet@, max_hops);
        }
        if packet.header.hops as u16 + 1 >= max_hops as u16 {
            return;
        }
        let at: usize = self.find_held(&packet.destination);
        if at < self.held_announces.len() {
            self.held_announces.set(at, packet.clone());
            assert(self@.held =~= old(self)@.held.update(at as int, packet@));
        } else if self.held_announces.len() < self.params.ic_max_held_announces {
            self.held_announces.push(packet.clone());
            assert(self@.held =~= old(self)@.held.push(packet@));
        }
    }

    /// Which held announce is released first.
    fn find_first_held(&self) -> (r: usize)
        requires
            self@.held.len() > 0,
        ensures
            r == first_held(self@.held, self@.held.len() as int),
            r < self@.held.len(),
    {
        let mut best: usize = 0;
        let mut i: usize = 1;
        while i < self.held_announces.len()
            invariant
                1 <= i <= self.held_announces@.len(),
                best < i,
                best == first_held(self@.held, i as int),
            decreases self.held_announces@.len() - i,
        {
            let a: &Packet = &self.held_announces[i];
            let b: &Packet = &self.held_announces[best];
            assert(self@.held[i as int] == a@);
            assert(self@.held[best as int] == b@);
            let first: bool = a.header.hops < b.header.hops || (a.header.hops == b.header.hops
                && bytes::be_number(&a.destination.0) < bytes::be_number(&b.destination.0));
            if first {
                best = i;
            }
            i += 1;
        }
        best
    }

    /// Releases one held announce, when the last was long enough ago and announces no longer come
    /// in too often: that with the fewest hops.
    pub fn release_held_announce(&mut self, now: u64) -> (r: Option<Packet>)
        requires
            old(self).wf(),
        ensures
            (final(self)@, packet_view(r)) == after_release(old(self)@, now),
            final(self).wf(),
    {
        proof {
            release_keeps_unique(self@, now);
        }
        if self.held_announces.len() == 0 || now <= self.ic_held_release {
            return None;
        }
        let limit: u64 = if self.age(now) < self.params.ic_new_time {
            self.params.ic_burst_freq_new
        } else {
            self.params.ic_burst_freq
        };
        let frequency: Frequency = self.incoming_announce_frequency(now);
        if !frequency.is_below(limit) {
            return None;
        }
        let at: usize = self.find_first_held();
        self.ic_held_release = now.saturating_add(self.params.ic_held_release_interval);
        let packet: Packet = self.held_announces.remove(at);
        assert(self@.held =~= old(self)@.held.remove(at as int));
        Some(packet)
    }

    /// How many announces are held back.
    pub fn held_announces_len(&self) -> (r: usize)
        ensures
            r == self@.held.len(),
    {
        self.held_announces.len()
    }

    /// How long the budget is used up by a packet of so many bytes.
    fn cap_wait_time(&self, size: usize) -> (r: u64)
        requires
            self.bitrate > 0 ==> self.announce_cap > 0,
        ensures
            r == cap_wait(self.bitrate, self.announce_cap, size as nat),
    {
        if self.bitrate == 0 {
            return 0;
        }
        budget_wait(self.bitrate, self.announce_cap, size)
    }

    /// Whether an announce of so many bytes may be sent now, which uses up the budget. While
    /// others are queued it may not.
    pub fn try_transmit_announce(&mut self, size: usize, now: u64) -> (r: bool)
        requires
            old(self).wf(),
        ensures
            (final(self)@, r) == after_try(old(self)@, size as nat, now),
            final(self).wf(),
    {
        if self.announce_queue.len() > 0 || self.bitrate == 0 || self.announce_cap == 0 {
            return false;
        }
        if now >= self.announce_allowed_at {
            let wait: u64 = self.cap_wait_time(size);
            self.announce_allowed_at = now.saturating_add(wait);
            true
        } else {
            false
        }
    }

    /// Where the announce for a destination is queued, or the length of the queue.
    fn find_queued(&self, destination: &AddressHash) -> (r: usize)
        ensures
            r == queued_at(self@.queue, *destination, 0),
            r <= self@.queue.len(),
    {
        let mut i: usize = 0;
        while i < self.announce_queue.len()
            invariant
                i <= self.announce_queue@.len(),
                queued_at(self@.queue, *destination, 0) == queued_at(
                    self@.queue,
                    *destination,
                    i as int,
                ),
            decreases self.announce_queue@.len() - i,
        {
            assert(self@.queue[i as int] == self.announce_queue@[i as int]@);
            if self.announce_queue[i].packet.destination.same(destination) {
                return i;
            }
            i += 1;
        }
        i
    }

    /// Queues an announce until there is airtime. Of two for one destination the one emitted later
    /// stays.
    pub fn queue_announce(&mut self, packet: Packet, now: u64)
        requires
            old(self).wf(),
        ensures
            final(self)@ == after_queue(old(self)@, packet@, now),
            final(self).wf(),
    {
        proof {
            queue_keeps_unique(self@, packet@, now);
        }
        if packet.header.packet_type != PacketType::Announce {
            return;
        }
        let emitted: u64 = announce_emitted(&packet);
        let at: usize = self.find_queued(&packet.destination);
        if at < self.announce_queue.len() {
            assert(self@.queue[at as int] == self.announce_queue@[at as int]@);
            if emitted > self.announce_queue[at].emitted {
                let entry: QueuedAnnounce = QueuedAnnounce { packet, queued_at: now, emitted };
                let ghost view = entry@;
                self.announce_queue.set(at, entry);
                assert(self@.queue =~= old(self)@.queue.update(at as int, view));
            }
        } else if self.announce_queue.len() < MAX_QUEUED_ANNOUNCES {
            let entry: QueuedAnnounce = QueuedAnnounce { packet, queued_at: now, emitted };
            let ghost view = entry@;
            self.announce_queue.push(entry);
            assert(self@.queue =~= old(self)@.queue.push(view));
        }
    }

    /// Drops queued announces that are too old.
    fn drop_stale(&mut self, now: u64)
        ensures
            final(self)@ == (ControlView {
                queue: live_queue(old(self)@.queue, now),
                ..old(self)@
            }),
    {
        let ghost before = self@.queue;
        let ghost mut seen: int = 0;
        let mut i: usize = 0;
        assert(before.take(0) =~= Seq::<QueuedView>::empty());
        assert(self@.queue =~= live_queue(before.take(0), now) + before.skip(0));
        while i < self.announce_queue.len()
            invariant
                0 <= seen <= before.len(),
                i == live_queue(before.take(seen), now).len(),
                self@ == (ControlView {
                    queue: live_queue(before.take(seen), now) + before.skip(seen),
                    ..old(self)@
                }),
            decreases before.len() - seen,
        {
            let ghost head = live_queue(before.take(seen), now);
            proof {
                assert(self@.queue.len() == head.len() + before.len() - seen);
                assert(self@.queue[i as int] == before[seen]);
                assert(before.take(seen + 1).drop_last() =~= before.take(seen));
                assert(before.take(seen + 1).last() == before[seen]);
            }
            let ghost queue = self@.queue;
            if control::queued_is_stale(&self.announce_queue[i], now) {
                let _ = self.announce_queue.remove(i);
                assert(self@.queue =~= queue.remove(i as int));
                assert(self@.queue =~= head + before.skip(seen + 1));
            } else {
                i += 1;
                assert(self@.queue =~= head.push(before[seen]) + before.skip(seen + 1));
            }
            proof {
                seen = seen + 1;
            }
        }
        assert(self@.queue.len() == live_queue(before.take(seen), now).len() + before.len() - seen);
        assert(before.take(seen) =~= before);
        assert(self@.queue =~= live_queue(before, now));
    }

    /// Which queued announce is sent first.
    fn find_first_queued(&self) -> (r: usize)
        requires
            self@.queue.len() > 0,
        ensures
            r == first_queued(self@.queue, self@.queue.len() as int),
            r < self@.queue.len(),
    {
        let mut best: usize = 0;
        let mut i: usize = 1;
        while i < self.announce_queue.len()
            invariant
                1 <= i <= self.announce_queue@.len(),
                best < i,
                best == first_queued(self@.queue, i as int),
            decreases self.announce_queue@.len() - i,
        {
            assert(self@.queue[i as int] == self.announce_queue@[i as int]@);
            assert(self@.queue[best as int] == self.announce_queue@[best as int]@);
            if self.announce_queue[i].packet.header.hops
                < self.announce_queue[best].packet.header.hops {
                best = i;
            }
            i += 1;
        }
        best
    }

    /// Whether the next queued announce can be taken, or there is none to take now.
    pub fn can_take(&self, now: u64) -> (r: bool)
        ensures
            r == can_take(self@, now),
    {
        if self.bitrate == 0 || self.announce_cap > 0 || now < self.announce_allowed_at {
            return true;
        }
        let ghost queue = self@.queue;
        let mut i: usize = 0;
        assert(queue.take(0) =~= Seq::<QueuedView>::empty());
        while i < self.announce_queue.len()
            invariant
                queue == self@.queue,
                i <= queue.len(),
                self.bitrate > 0,
                self.announce_cap == 0,
                now >= self.announce_allowed_at,
                live_queue(queue.take(i as int), now).len() == 0,
            decreases queue.len() - i,
        {
            proof {
                assert(queue.take(i + 1).drop_last() =~= queue.take(i as int));
                assert(queue[i as int] == self.announce_queue@[i as int]@);
            }
            if !control::queued_is_stale(&self.announce_queue[i], now) {
                proof {
                    live_queue_grows(queue, now, i + 1);
                }
                return false;
            }
            i += 1;
        }
        assert(queue.take(i as int) =~= queue);
        true
    }

    /// Takes the next queued announce when there is airtime for it, and reserves that: the one with
    /// the fewest hops, the oldest first. Those that are too old are dropped. With a bitrate and no
    /// budget at all there is no airtime to reserve, so nothing can be taken.
    pub fn take_queued_announce(&mut self, now: u64) -> (r: Option<Packet>)
        requires
            old(self).wf(),
            can_take(old(self)@, now),
        ensures
            (final(self)@, packet_view(r)) == after_take(old(self)@, now),
            final(self).wf(),
    {
        proof {
            take_keeps_unique(self@, now);
        }
        self.drop_stale(now);
        if self.announce_queue.len() == 0 || now < self.announce_allowed_at {
            return None;
        }
        let ghost live = self@.queue;
        let at: usize = self.find_first_queued();
        let entry: QueuedAnnounce = self.announce_queue.remove(at);
        assert(entry@ == live[at as int]);
        assert(self@.queue =~= live.remove(at as int));
        let wait: u64 = self.cap_wait_time(packet_wire_len(&entry.packet));
        self.announce_allowed_at = now.saturating_add(wait);
        Some(entry.packet)
    }

    /// How long until the next queued announce may be sent.
    pub fn queued_announce_wait(&self, now: u64) -> (r: Option<u64>)
        ensures
            r == (if self@.queue.len() == 0 {
                None
            } else {
                Some(control::elapsed(now, self@.announce_allowed_at))
            }),
    {
        if self.announce_queue.len() == 0 {
            None
        } else {
            Some(control::since(now, self.announce_allowed_at))
        }
    }

    /// How many announces are queued.
    pub fn queued_announces_len(&self) -> (r: usize)
        ensures
            r == self@.queue.len(),
    {
        self.announce_queue.len()
    }
}

/// The time that a packet takes on the air, divided by the budget.
fn budget_wait(bitrate: u64, announce_cap: u64, size: usize) -> (r: u64)
    requires
        bitrate > 0,
        announce_cap > 0,
    ensures
        r == cap_wait(bitrate, announce_cap, size as nat),
{
    let time: u128 = size as u128 * 8_000_000_000_000;
    let share: u128 = control::product(bitrate, announce_cap);
    assert(bitrate * announce_cap > 0) by (nonlinear_arith)
        requires
            bitrate > 0,
            announce_cap > 0,
    ;
    let wait: u128 = time / share;
    if wait <= u64::MAX as u128 {
        wait as u64
    } else {
        u64::MAX
    }
}

} // verus!
