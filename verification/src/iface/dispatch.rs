//! What the interfaces of a node send: where packets go out, what is released and what is taken
//! from the queues; and what is reported of them.

use vstd::prelude::*;
use vstd::string::*;

use crate::hash::AddressHash;
use crate::iface::control;
use crate::iface::control::{packet_wire_len, InterfaceMode};
use crate::iface::control_state;
use crate::iface::control_state::{ControlView, IfaceControlState};
use crate::iface::manager;
use crate::iface::manager::{
    EntryView, InterfaceManager, InterfaceStats, ManagerView, TxMessage, TxMessageType, TxView,
};
use crate::packet::{Packet, PacketType, PacketView};
use crate::text;

verus! {

/// Released announces as mathematical values.
pub open spec fn released_views(released: Seq<(AddressHash, Packet)>) -> Seq<
    (AddressHash, PacketView),
> {
    released.map_values(|r: (AddressHash, Packet)| (r.0, r.1@))
}

/// Messages as mathematical values.
pub open spec fn message_views(messages: Seq<TxMessage>) -> Seq<TxView> {
    messages.map_values(|m: TxMessage| m@)
}

/// Packets as mathematical values.
pub open spec fn packet_views(packets: Seq<Packet>) -> Seq<PacketView> {
    packets.map_values(|p: Packet| p@)
}

/// Whether an interface is up, by address.
pub open spec fn online_views(entries: Seq<EntryView>) -> Seq<(AddressHash, bool)> {
    entries.map_values(|e: EntryView| (e.address, e.stats.online))
}

/// Releasing changes no control state but the ones gone through.
proof fn releases_frame(m: ManagerView, now: u64, n: int, address: AddressHash)
    requires
        0 <= n <= m.order.len(),
        forall|k: int| 0 <= k < m.order.len() ==> m.controls.dom().contains(#[trigger] m.order[k]),
        forall|k: int| 0 <= k < n ==> #[trigger] m.order[k] != address,
    ensures
        manager::after_releases(m, now, n).0.controls.dom() == m.controls.dom(),
        m.controls.dom().contains(address) ==> manager::after_releases(m, now, n).0.controls[address]
            == m.controls[address],
    decreases n,
{
    if n > 0 {
        releases_frame(m, now, n - 1, address);
        let before = manager::after_releases(m, now, n - 1).0;
        assert(manager::after_releases(m, now, n).0.controls.dom() =~= before.controls.dom());
    }
}

/// Working off queues changes no control state but the ones gone through.
proof fn queues_frame(m: ManagerView, now: u64, n: int, address: AddressHash)
    requires
        0 <= n <= m.order.len(),
        forall|k: int| 0 <= k < m.order.len() ==> m.controls.dom().contains(#[trigger] m.order[k]),
        forall|k: int| 0 <= k < n ==> #[trigger] m.order[k] != address,
    ensures
        manager::after_queues(m, now, n).0.controls.dom() == m.controls.dom(),
        m.controls.dom().contains(address) ==> manager::after_queues(m, now, n).0.controls[address]
            == m.controls[address],
    decreases n,
{
    if n > 0 {
        queues_frame(m, now, n - 1, address);
        let before = manager::after_queues(m, now, n - 1).0;
        assert(manager::after_queues(m, now, n).0.controls.dom() =~= before.controls.dom());
    }
}

/// Offering a packet changes neither which interfaces there are nor their addresses.
proof fn offers_frame(m: ManagerView, msg: TxView, now: u64, n: int)
    requires
        0 <= n <= m.ifaces.len(),
    ensures
        manager::after_offers(m, msg, now, n).0.ifaces.len() == m.ifaces.len(),
        forall|k: int|
            0 <= k < m.ifaces.len() ==> (#[trigger] manager::after_offers(
                m,
                msg,
                now,
                n,
            ).0.ifaces[k]).address == m.ifaces[k].address && manager::after_offers(
                m,
                msg,
                now,
                n,
            ).0.ifaces[k].stopped == m.ifaces[k].stopped,
    decreases n,
{
    if n > 0 {
        offers_frame(m, msg, now, n - 1);
    }
}

/// One more announce is taken from a queue at the end of a series.
proof fn takes_step(c: ControlView, now: u64, n: int)
    requires
        n >= 0,
        manager::after_takes(c, now, n).1.len() == n,
    ensures
        ({
            let (mid, packets) = manager::after_takes(c, now, n);
            let (next, taken) = control_state::after_take(mid, now);
            manager::after_takes(c, now, n + 1) == match taken {
                Some(packet) => (
                    ControlView { oa: control::sampled(next.oa, now), ..next },
                    packets.push(packet),
                ),
                None => (next, packets),
            }
        }),
    decreases n,
{
    reveal_with_fuel(manager::after_takes, 2);
    if n == 0 {
        let (next, taken) = control_state::after_take(c, now);
        if taken is Some {
            assert(seq![taken->0] + Seq::<PacketView>::empty() =~= Seq::<PacketView>::empty().push(
                taken->0,
            ));
        }
    } else {
        let (next, taken) = control_state::after_take(c, now);
        assert(taken is Some);
        let sent = ControlView { oa: control::sampled(next.oa, now), ..next };
        let (mid, packets) = manager::after_takes(sent, now, n - 1);
        assert(manager::after_takes(c, now, n).1 == seq![taken->0] + packets);
        assert(packets.len() == n - 1);
        takes_step(sent, now, n - 1);
        let (last, more) = control_state::after_take(mid, now);
        if more is Some {
            assert(seq![taken->0] + packets.push(more->0) =~= (seq![taken->0] + packets).push(
                more->0,
            ));
        }
    }
}

/// Once nothing is taken, nothing more is.
proof fn takes_stop(c: ControlView, now: u64, n: int, m: int)
    requires
        0 <= n <= m,
        manager::after_takes(c, now, n).1.len() < n,
    ensures
        manager::after_takes(c, now, m) == manager::after_takes(c, now, n),
    decreases n,
{
    reveal_with_fuel(manager::after_takes, 2);
    let (next, taken) = control_state::after_take(c, now);
    if taken is Some {
        let sent = ControlView { oa: control::sampled(next.oa, now), ..next };
        assert(manager::after_takes(c, now, n).1 == seq![taken->0] + manager::after_takes(
            sent,
            now,
            n - 1,
        ).1);
        takes_stop(sent, now, n - 1, m - 1);
    }
}

/// Each announce that is taken leaves the queue shorter.
proof fn take_shortens(c: ControlView, now: u64)
    requires
        control_state::control_wf(c),
    ensures
        control_state::after_take(c, now).0.queue.len() <= c.queue.len(),
        control_state::after_take(c, now).1 is Some ==> control_state::after_take(
            c,
            now,
        ).0.queue.len() < c.queue.len(),
{
    control_state::live_queue_kept(c.queue, now);
    let live = control_state::live_queue(c.queue, now);
    if live.len() > 0 {
        control_state::first_queued_bounds(live, live.len() as int);
    }
}

/// Takes announces from a queue as long as there is airtime for them.
fn drain(control: &mut IfaceControlState, now: u64) -> (packets: Vec<Packet>)
    requires
        old(control).wf(),
        control_state::can_take(old(control)@, now),
    ensures
        final(control).wf(),
        (final(control)@, packet_views(packets@)) == manager::after_takes(
            old(control)@,
            now,
            old(control)@.queue.len() as int + 1,
        ),
{
    let mut packets: Vec<Packet> = Vec::new();
    let ghost c = control@;
    let mut more: bool = true;
    assert(packet_views(packets@) =~= Seq::<PacketView>::empty());
    while more
        invariant
            control.wf(),
            control_state::can_take(control@, now),
            c == old(control)@,
            more ==> (control@, packet_views(packets@)) == manager::after_takes(
                c,
                now,
                packets@.len() as int,
            ) && control@.queue.len() + packets@.len() <= c.queue.len(),
            !more ==> (control@, packet_views(packets@)) == manager::after_takes(
                c,
                now,
                c.queue.len() as int + 1,
            ),
        decreases control@.queue.len(), more as int,
    {
        let ghost before = packet_views(packets@);
        let ghost n = packets@.len() as int;
        proof {
            takes_step(c, now, n);
            take_shortens(control@, now);
        }
        match control.take_queued_announce(now) {
            Some(packet) => {
                control.sent_announce(now);
                let ghost view = packet@;
                packets.push(packet);
                assert(packet_views(packets@) =~= before.push(view));
            },
            None => {
                more = false;
                proof {
                    takes_stop(c, now, n + 1, c.queue.len() as int + 1);
                }
            },
        }
    }
    packets
}

impl InterfaceManager {
    /// Releases held announces: at most one for each control state, where its time has come.
    /// Returns them with the interfaces that they came in on.
    pub fn release_held_announces(&mut self, now: u64) -> (r: Vec<(AddressHash, Packet)>)
        requires
            old(self).wf(),
        ensures
            final(self).wf(),
            (final(self)@, released_views(r@)) == manager::after_releases(
                old(self)@,
                now,
                old(self)@.order.len() as int,
            ),
    {
        let mut r: Vec<(AddressHash, Packet)> = Vec::new();
        let ghost m = self@;
        let mut i: usize = 0;
        assert(released_views(r@) =~= Seq::<(AddressHash, PacketView)>::empty());
        proof {
            self.controls.keys_are_domain();
            assert forall|k: int| 0 <= k < m.order.len() implies m.controls.dom().contains(
                #[trigger] m.order[k],
            ) by {
                assert(self.controls.keys().contains(m.order[k]));
            }
        }
        while i < self.controls.len()
            invariant
                self.wf(),
                m == old(self)@,
                i <= m.order.len(),
                self@.order == m.order,
                m.order.no_duplicates(),
                forall|k: int|
                    0 <= k < m.order.len() ==> m.controls.dom().contains(#[trigger] m.order[k]),
                (self@, released_views(r@)) == manager::after_releases(m, now, i as int),
            decreases m.order.len() - i,
        {
            let address: AddressHash = self.controls.key_at(i);
            let ghost before = self@;
            let ghost out = released_views(r@);
            proof {
                releases_frame(m, now, i as int, address);
            }
            match self.control_mut(&address) {
                Some(control) => {
                    match control.release_held_announce(now) {
                        Some(packet) => {
                            let ghost view = packet@;
                            r.push((address, packet));
                            assert(released_views(r@) =~= out.push((address, view)));
                        },
                        None => {},
                    }
                },
                None => {},
            }
            i += 1;
        }
        r
    }

    /// Whether the next announce of each queue can be taken, or there is none to take now.
    pub fn queues_ready(&self, now: u64) -> (r: bool)
        requires
            self.wf(),
        ensures
            r == manager::queues_ready(self@, now),
    {
        let mut i: usize = 0;
        while i < self.controls.len()
            invariant
                self.wf(),
                i <= self@.order.len(),
                forall|k: int|
                    0 <= k < i ==> control_state::can_take(
                        self@.controls[#[trigger] self@.order[k]],
                        now,
                    ),
            decreases self@.order.len() - i,
        {
            let address: AddressHash = self.controls.key_at(i);
            match self.control(&address) {
                Some(control) => {
                    if !control.can_take(now) {
                        assert(self@.controls.dom().contains(address));
                        return false;
                    }
                },
                None => {},
            }
            i += 1;
        }
        proof {
            self.controls.keys_are_domain();
            assert forall|a: AddressHash| #[trigger]
                self@.controls.dom().contains(a) implies control_state::can_take(
                self@.controls[a],
                now,
            ) by {
                assert(self.controls.keys().contains(a));
                let k = choose|k: int| 0 <= k < self@.order.len() && self@.order[k] == a;
                assert(self@.order[k] == a);
            }
        }
        true
    }

    /// Takes queued announces as far as there is airtime for them. Returns what to send.
    pub fn process_announce_queues(&mut self, now: u64) -> (r: Vec<TxMessage>)
        requires
            old(self).wf(),
            manager::queues_ready(old(self)@, now),
        ensures
            final(self).wf(),
            (final(self)@, message_views(r@)) == manager::after_queues(
                old(self)@,
                now,
                old(self)@.order.len() as int,
            ),
    {
        let mut r: Vec<TxMessage> = Vec::new();
        let ghost m = self@;
        let mut i: usize = 0;
        assert(message_views(r@) =~= Seq::<TxView>::empty());
        proof {
            self.controls.keys_are_domain();
            assert forall|k: int| 0 <= k < m.order.len() implies m.controls.dom().contains(
                #[trigger] m.order[k],
            ) by {
                assert(self.controls.keys().contains(m.order[k]));
            }
        }
        while i < self.controls.len()
            invariant
                self.wf(),
                m == old(self)@,
                manager::queues_ready(m, now),
                i <= m.order.len(),
                self@.order == m.order,
                m.order.no_duplicates(),
                forall|k: int|
                    0 <= k < m.order.len() ==> m.controls.dom().contains(#[trigger] m.order[k]),
                (self@, message_views(r@)) == manager::after_queues(m, now, i as int),
            decreases m.order.len() - i,
        {
            let address: AddressHash = self.controls.key_at(i);
            let ghost out = message_views(r@);
            proof {
                queues_frame(m, now, i as int, address);
                assert(m.controls.dom().contains(address));
            }
            let mut packets: Vec<Packet> = Vec::new();
            match self.control_mut(&address) {
                Some(control) => {
                    packets = drain(control, now);
                },
                None => {},
            }
            let ghost drained = packet_views(packets@);
            append_direct(&mut r, address, packets);
            assert(message_views(r@) =~= out + manager::direct(address, drained));
            i += 1;
        }
        r
    }

    /// The interfaces that are not stopped, and whether they are up.
    pub fn live_iface_addresses(&self) -> (r: Vec<(AddressHash, bool)>)
        ensures
            r@ == online_views(manager::live(self@.ifaces, self@.ifaces.len() as int)),
    {
        let mut r: Vec<(AddressHash, bool)> = Vec::new();
        let mut i: usize = 0;
        assert(r@ =~= online_views(manager::live(self@.ifaces, 0)));
        while i < self.ifaces.len()
            invariant
                i <= self.ifaces@.len(),
                r@ == online_views(manager::live(self@.ifaces, i as int)),
            decreases self.ifaces@.len() - i,
        {
            assert(self@.ifaces[i as int] == self.ifaces@[i as int]@);
            if !self.ifaces[i].stopped {
                r.push((self.ifaces[i].address, self.ifaces[i].stats.online()));
            }
            i += 1;
            assert(r@ =~= online_views(manager::live(self@.ifaces, i as int)));
        }
        r
    }

    /// The type of an interface that is not stopped.
    pub fn iface_kind(&self, address: &AddressHash) -> (r: Option<String>)
        ensures
            match manager::kind_of(self@, *address) {
                Some(kind) => r is Some && r->0@ == kind,
                None => r is None,
            },
    {
        let mut i: usize = 0;
        while i < self.ifaces.len()
            invariant
                i <= self.ifaces@.len(),
                manager::live_at(self@.ifaces, *address, 0) == manager::live_at(
                    self@.ifaces,
                    *address,
                    i as int,
                ),
            decreases self.ifaces@.len() - i,
        {
            assert(self@.ifaces[i as int] == self.ifaces@[i as int]@);
            if self.ifaces[i].address.same(address) && !self.ifaces[i].stopped {
                return Some(self.ifaces[i].kind.clone());
            }
            i += 1;
        }
        None
    }

    /// The lowest bitrate among the interfaces that are up.
    pub fn lowest_interface_bitrate(&self) -> (r: Option<u64>)
        requires
            self.wf(),
        ensures
            r == manager::lowest_bitrate(self@, self@.ifaces.len() as int),
    {
        let mut r: Option<u64> = None;
        let mut i: usize = 0;
        while i < self.ifaces.len()
            invariant
                self.wf(),
                i <= self.ifaces@.len(),
                r == manager::lowest_bitrate(self@, i as int),
            decreases self.ifaces@.len() - i,
        {
            assert(self@.ifaces[i as int] == self.ifaces@[i as int]@);
            if !self.ifaces[i].stopped && self.ifaces[i].stats.online() {
                if let Some(control) = self.control(&self.ifaces[i].address) {
                    let rate: u64 = control.bitrate;
                    let lower: bool = match r {
                        Some(lowest) => rate < lowest,
                        None => true,
                    };
                    if lower {
                        r = Some(rate);
                    }
                }
            }
            i += 1;
        }
        r
    }

    /// The address of the first interface that is not stopped.
    pub fn first_iface_address(&self) -> (r: Option<AddressHash>)
        ensures
            r == manager::first_live(self@),
    {
        let mut i: usize = 0;
        while i < self.ifaces.len()
            invariant
                i <= self.ifaces@.len(),
                manager::live(self@.ifaces, i as int).len() == 0,
            decreases self.ifaces@.len() - i,
        {
            assert(self@.ifaces[i as int] == self.ifaces@[i as int]@);
            if !self.ifaces[i].stopped {
                proof {
                    manager::live_is_prefix(self@.ifaces, i + 1, self@.ifaces.len() as int);
                }
                return Some(self.ifaces[i].address);
            }
            i += 1;
        }
        None
    }

    /// The longest packet of the first interface that is not stopped, where it can be negotiated.
    pub fn first_iface_hw_mtu(&self) -> (r: Option<usize>)
        ensures
            r == (match manager::first_live(self@) {
                Some(address) => manager::hw_mtu(self@, address),
                None => None,
            }),
    {
        match self.first_iface_address() {
            Some(address) => self.iface_hw_mtu(&address),
            None => None,
        }
    }

    /// The longest packet of an interface, where it can be negotiated.
    pub fn iface_hw_mtu(&self, address: &AddressHash) -> (r: Option<usize>)
        ensures
            r == manager::hw_mtu(self@, *address),
    {
        match self.iface_kind(address) {
            Some(kind) => kind_hw_mtu(kind.as_str()),
            None => None,
        }
    }

    /// Statistics of the interfaces that are not stopped.
    pub fn stats(&self) -> (r: Vec<InterfaceStats>)
        ensures
            ({
                let live = manager::live(self@.ifaces, self@.ifaces.len() as int);
                &&& r@.len() == live.len()
                &&& forall|k: int|
                    0 <= k < live.len() ==> manager::stats_of(#[trigger] r@[k], live[k])
            }),
    {
        let mut r: Vec<InterfaceStats> = Vec::new();
        let mut i: usize = 0;
        while i < self.ifaces.len()
            invariant
                i <= self.ifaces@.len(),
                r@.len() == manager::live(self@.ifaces, i as int).len(),
                forall|k: int|
                    0 <= k < r@.len() ==> manager::stats_of(
                        #[trigger] r@[k],
                        manager::live(self@.ifaces, i as int)[k],
                    ),
            decreases self.ifaces@.len() - i,
        {
            assert(self@.ifaces[i as int] == self.ifaces@[i as int]@);
            if !self.ifaces[i].stopped {
                r.push(self.ifaces[i].stats());
            }
            i += 1;
        }
        r
    }

    /// Whether an announce from one interface goes on to another.
    pub fn announce_forwarding_allowed(
        &self,
        to_iface: &AddressHash,
        from_iface: Option<AddressHash>,
    ) -> (r: bool)
        requires
            self.wf(),
        ensures
            r == manager::forwards(self@, *to_iface, from_iface),
    {
        match from_iface {
            None => true,
            Some(from) => match self.iface_mode(to_iface) {
                InterfaceMode::Internal => {
                    let said: bool = match self.control(&from) {
                        Some(control) => match control.announces_to_internal {
                            Some(to_internal) => to_internal,
                            None => false,
                        },
                        None => false,
                    };
                    self.iface_mode(&from) == InterfaceMode::Boundary || said
                },
                InterfaceMode::Roaming => {
                    let mode: InterfaceMode = self.iface_mode(&from);
                    mode != InterfaceMode::Roaming && mode != InterfaceMode::Boundary
                },
                InterfaceMode::Boundary => self.iface_mode(&from) != InterfaceMode::Roaming,
                _ => true,
            },
        }
    }

    /// Whether a packet is meant for an interface.
    fn concerns(&self, address: &AddressHash, message: &TxMessage) -> (r: bool)
        requires
            self.wf(),
        ensures
            r == manager::is_for(self@, *address, message@),
    {
        match message.tx_type {
            TxMessageType::Broadcast(from) => {
                let back: bool = match from {
                    Some(source) => source.same(address),
                    None => false,
                };
                if back {
                    return false;
                }
                if message.packet.header.packet_type == PacketType::Announce
                    && message.packet.header.hops > 0 {
                    self.announce_forwarding_allowed(address, from)
                } else {
                    true
                }
            },
            TxMessageType::Direct(to) => to.same(address),
        }
    }

    /// Offers a packet to the `i`-th interface. Returns whether it goes out there.
    fn offer(&mut self, i: usize, message: &TxMessage, now: u64) -> (r: bool)
        requires
            old(self).wf(),
            i < old(self)@.ifaces.len(),
        ensures
            final(self).wf(),
            (final(self)@, r) == manager::after_offer(old(self)@, i as int, message@, now),
    {
        assert(self@.ifaces[i as int] == self.ifaces@[i as int]@);
        let address: AddressHash = self.ifaces[i].address;
        if self.ifaces[i].stopped || !self.concerns(&address, message) {
            return false;
        }
        if !(message.packet.header.packet_type == PacketType::Announce
            && message.packet.header.hops > 0) {
            return true;
        }
        let size: usize = packet_wire_len(&message.packet);
        let mut allowed: bool = true;
        let mut known: bool = false;
        match self.control_mut(&address) {
            Some(control) => {
                known = true;
                allowed = control.try_transmit_announce(size, now);
                if allowed {
                    control.sent_announce(now);
                } else {
                    control.queue_announce(message.packet.clone(), now);
                }
            },
            None => {},
        }
        if known && allowed {
            let ghost before = self@;
            self.ifaces[i].stats.count_announce_tx(size);
            assert(self@.ifaces =~= before.ifaces.update(
                i as int,
                EntryView {
                    stats: self.ifaces@[i as int].stats,
                    ..before.ifaces[i as int]
                },
            ));
        }
        allowed
    }

    /// Decides where a packet goes out. Announces that are passed on use up airtime, and are queued
    /// where there is none. Returns the interfaces to hand the packet to.
    pub fn send(&mut self, message: &TxMessage, now: u64) -> (r: Vec<AddressHash>)
        requires
            old(self).wf(),
        ensures
            final(self).wf(),
            (final(self)@, r@) == manager::after_offers(
                old(self)@,
                message@,
                now,
                old(self)@.ifaces.len() as int,
            ),
    {
        let mut r: Vec<AddressHash> = Vec::new();
        let ghost m = self@;
        let mut i: usize = 0;
        while i < self.ifaces.len()
            invariant
                self.wf(),
                m == old(self)@,
                i <= m.ifaces.len(),
                self.ifaces@.len() == m.ifaces.len(),
                (self@, r@) == manager::after_offers(m, message@, now, i as int),
            decreases m.ifaces.len() - i,
        {
            proof {
                offers_frame(m, message@, now, i as int);
                offers_frame(m, message@, now, i + 1);
                assert(self@.ifaces[i as int] == self.ifaces@[i as int]@);
            }
            let address: AddressHash = self.ifaces[i].address;
            if self.offer(i, message, now) {
                r.push(address);
            }
            i += 1;
        }
        r
    }
}

/// Appends packets to send on one interface.
fn append_direct(out: &mut Vec<TxMessage>, address: AddressHash, packets: Vec<Packet>)
    ensures
        message_views(final(out)@) == message_views(old(out)@) + manager::direct(
            address,
            packet_views(packets@),
        ),
{
    let ghost before = message_views(out@);
    let ghost all = packet_views(packets@);
    let mut rest: Vec<Packet> = packets;
    let ghost mut k: int = 0;
    assert(packet_views(rest@) =~= all.skip(0));
    assert(message_views(out@) =~= before + manager::direct(address, all.take(0)));
    while rest.len() > 0
        invariant
            0 <= k,
            k + rest@.len() == all.len(),
            packet_views(rest@) == all.skip(k),
            message_views(out@) == before + manager::direct(address, all.take(k)),
        decreases rest@.len(),
    {
        let ghost current = message_views(out@);
        let ghost left = packet_views(rest@);
        assert(left[0] == rest@[0]@);
        let packet: Packet = rest.remove(0);
        assert(packet@ == all[k]);
        assert(packet_views(rest@) =~= left.remove(0));
        assert(packet_views(rest@) =~= all.skip(k + 1));
        let ghost view = packet@;
        out.push(TxMessage { tx_type: TxMessageType::Direct(address), packet });
        assert(message_views(out@) =~= current.push(
            TxView { tx_type: TxMessageType::Direct(address), packet: view },
        ));
        proof {
            k = k + 1;
        }
        assert(message_views(out@) =~= before + manager::direct(address, all.take(k)));
    }
    assert(all.take(k) =~= all);
}

/// The longest packet of a type of interface, where it can be negotiated.
pub fn kind_hw_mtu(kind: &str) -> (r: Option<usize>)
    ensures
        r == manager::hw_mtu_of(kind@),
{
    if text::same_text(kind, "LocalServer") || text::same_text(kind, "LocalClient")
        || text::same_text(kind, "TcpClient") || text::same_text(kind, "TcpServer") {
        Some(262_144)
    } else if text::same_text(kind, "BackboneClient") || text::same_text(kind, "BackboneServer") {
        Some(1_048_576)
    } else if text::same_text(kind, "AutoInterface") {
        Some(1_196)
    } else {
        None
    }
}

/// Two states in which the same announces go on between the same interfaces.
pub open spec fn same_policy(a: ManagerView, b: ManagerView) -> bool {
    &&& a.controls.dom() == b.controls.dom()
    &&& forall|k: AddressHash| #[trigger]
        a.controls.dom().contains(k) ==> a.controls[k].mode == b.controls[k].mode
            && a.controls[k].announces_to_internal == b.controls[k].announces_to_internal
}

proof fn offers_keep_policy(m: ManagerView, msg: TxView, now: u64, n: int)
    requires
        0 <= n <= m.ifaces.len(),
    ensures
        same_policy(manager::after_offers(m, msg, now, n).0, m),
    decreases n,
{
    if n > 0 {
        offers_keep_policy(m, msg, now, n - 1);
        let before = manager::after_offers(m, msg, now, n - 1).0;
        let after = manager::after_offers(m, msg, now, n).0;
        assert(after.controls.dom() =~= before.controls.dom());
        assert(same_policy(after, before));
    }
}

/// A packet only goes out where it is meant to, and never on a stopped interface: a direct one on
/// its interface, a broadcast on the others, and an announce that is passed on where the modes of
/// the two interfaces let it.
pub proof fn sent_where_meant(m: ManagerView, msg: TxView, now: u64, n: int, i: int)
    requires
        0 <= n <= m.ifaces.len(),
        0 <= i < manager::after_offers(m, msg, now, n).1.len(),
    ensures
        exists|k: int|
            0 <= k < n && (#[trigger] m.ifaces[k]).address == manager::after_offers(
                m,
                msg,
                now,
                n,
            ).1[i] && !m.ifaces[k].stopped && manager::is_for(m, m.ifaces[k].address, msg),
    decreases n,
{
    if n > 0 {
        let (before, out) = manager::after_offers(m, msg, now, n - 1);
        if i < out.len() {
            sent_where_meant(m, msg, now, n - 1, i);
            let k = choose|k: int|
                0 <= k < n - 1 && (#[trigger] m.ifaces[k]).address == out[i]
                    && !m.ifaces[k].stopped && manager::is_for(m, m.ifaces[k].address, msg);
            assert(m.ifaces[k].address == manager::after_offers(m, msg, now, n).1[i]);
        } else {
            offers_frame(m, msg, now, n - 1);
            offers_keep_policy(m, msg, now, n - 1);
            let address = m.ifaces[n - 1].address;
            assert(before.ifaces[n - 1].address == address);
            assert(manager::is_for(before, address, msg));
            assert(manager::is_for(m, address, msg));
        }
    }
}

/// A broadcast never goes back on the interface that it came in on.
pub proof fn broadcast_does_not_go_back(
    m: ManagerView,
    from: AddressHash,
    packet: PacketView,
    now: u64,
)
    ensures
        !manager::after_offers(
            m,
            TxView { tx_type: TxMessageType::Broadcast(Some(from)), packet },
            now,
            m.ifaces.len() as int,
        ).1.contains(from),
{
    let msg = TxView { tx_type: TxMessageType::Broadcast(Some(from)), packet };
    let n = m.ifaces.len() as int;
    let out = manager::after_offers(m, msg, now, n).1;
    if out.contains(from) {
        let i = choose|i: int| 0 <= i < out.len() && out[i] == from;
        sent_where_meant(m, msg, now, n, i);
    }
}

/// What is no announce that is passed on uses up no airtime and changes nothing: it goes out on
/// every interface that it is meant for and that is not stopped.
pub proof fn plain_packets_pass(m: ManagerView, msg: TxView, now: u64, n: int)
    requires
        0 <= n <= m.ifaces.len(),
        !manager::is_forwarded_announce(msg.packet),
    ensures
        manager::after_offers(m, msg, now, n).0 == m,
        forall|k: int|
            0 <= k < n && !(#[trigger] m.ifaces[k]).stopped && manager::is_for(
                m,
                m.ifaces[k].address,
                msg,
            ) ==> manager::after_offers(m, msg, now, n).1.contains(m.ifaces[k].address),
    decreases n,
{
    if n > 0 {
        plain_packets_pass(m, msg, now, n - 1);
        let (before, out) = manager::after_offers(m, msg, now, n - 1);
        let all = manager::after_offers(m, msg, now, n).1;
        assert forall|k: int|
            0 <= k < n && !(#[trigger] m.ifaces[k]).stopped && manager::is_for(
                m,
                m.ifaces[k].address,
                msg,
            ) implies all.contains(m.ifaces[k].address) by {
            if k < n - 1 {
                let j = choose|j: int| 0 <= j < out.len() && out[j] == m.ifaces[k].address;
                assert(all[j] == m.ifaces[k].address);
            } else {
                assert(all[all.len() - 1] == m.ifaces[k].address);
            }
        }
    }
}

/// Where the last separator `::` starts among the first `n` characters, or `-1`.
pub open spec fn last_separator(name: Seq<char>, n: int) -> int
    decreases n,
{
    if n < 2 {
        -1
    } else if name[n - 2] == ':' && name[n - 1] == ':' {
        n - 2
    } else {
        last_separator(name, n - 1)
    }
}

/// The last part of a path.
pub open spec fn last_part(name: Seq<char>) -> Seq<char> {
    let at = last_separator(name, name.len() as int);
    if at < 0 {
        name
    } else {
        name.skip(at + 2)
    }
}

/// The short form of the name of a type: what stands behind its path.
pub fn interface_kind_name(full: &str) -> (r: String)
    ensures
        r@ == last_part(full@),
{
    let chars: Vec<char> = text::characters(full);
    let mut n: usize = chars.len();
    let mut start: usize = 0;
    while n >= 2 && start == 0
        invariant
            chars@ == full@,
            n <= chars@.len(),
            start == 0 ==> last_separator(full@, full@.len() as int) == last_separator(
                full@,
                n as int,
            ),
            start > 0 ==> 2 <= start <= chars@.len() && last_separator(full@, full@.len() as int)
                == start - 2,
        decreases n,
    {
        if chars[n - 2] == ':' && chars[n - 1] == ':' {
            start = n;
        }
        n -= 1;
    }
    assert(start == 0 ==> last_separator(full@, full@.len() as int) == -1);
    let mut r: String = String::new();
    let mut i: usize = start;
    assert(r@ =~= full@.subrange(start as int, start as int));
    while i < chars.len()
        invariant
            start <= i <= chars@.len(),
            chars@ == full@,
            r@ == full@.subrange(start as int, i as int),
        decreases chars@.len() - i,
    {
        text::push_char(&mut r, chars[i]);
        i += 1;
        assert(r@ =~= full@.subrange(start as int, i as int));
    }
    assert(start == 0 ==> r@ =~= full@);
    assert(start > 0 ==> r@ =~= full@.skip(start as int));
    r
}

} // verus!
