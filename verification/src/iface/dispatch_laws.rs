//! What holds of the interfaces of a node together: where packets go out, which announces are
//! passed on, and what the manager finds.

use vstd::prelude::*;

use crate::hash::AddressHash;
use crate::iface::control;
use crate::iface::control::InterfaceMode;
use crate::iface::control_state;
use crate::iface::control_state::ControlView;
use crate::iface::dispatch::{plain_packets_pass, sent_where_meant};
use crate::iface::manager;
use crate::iface::manager::{EntryView, ManagerView, TxMessageType, TxView};
use crate::packet::{PacketType, PacketView};

verus! {

/// Which announces are passed on, by the modes of the interface that they go to and of the one that
/// they came in on. What comes from this node goes everywhere. Between roaming interfaces, and
/// between a boundary and roaming ones in either direction, nothing is passed on. Internal
/// interfaces get what comes from a boundary, or from where this is asked for. Everything else is
/// passed on.
pub proof fn modes_decide_on_announces(m: ManagerView, to: AddressHash, from: AddressHash)
    requires
        m.controls.dom().contains(to),
        m.controls.dom().contains(from),
    ensures
        manager::forwards(m, to, None),
        ({
            let target = m.controls[to].mode;
            let source = m.controls[from].mode;
            let passed = manager::forwards(m, to, Some(from));
            &&& target == InterfaceMode::Roaming && source == InterfaceMode::Roaming ==> !passed
            &&& target == InterfaceMode::Roaming && source == InterfaceMode::Boundary ==> !passed
            &&& target == InterfaceMode::Boundary && source == InterfaceMode::Roaming ==> !passed
            &&& target == InterfaceMode::Internal && source == InterfaceMode::Boundary ==> passed
            &&& target == InterfaceMode::Internal && source != InterfaceMode::Boundary ==> passed
                == (m.controls[from].announces_to_internal == Some(true))
            &&& target == InterfaceMode::Roaming && source != InterfaceMode::Roaming && source
                != InterfaceMode::Boundary ==> passed
            &&& target == InterfaceMode::Boundary && source != InterfaceMode::Roaming ==> passed
            &&& target == InterfaceMode::Full ==> passed
            &&& target == InterfaceMode::PointToPoint ==> passed
            &&& target == InterfaceMode::AccessPoint ==> passed
            &&& target == InterfaceMode::Gateway ==> passed
        }),
{
}

/// An interface without a control state counts as one in full mode, as a target and as a source.
pub proof fn unknown_interfaces_are_full(m: ManagerView, known: AddressHash, other: AddressHash)
    requires
        m.controls.dom().contains(known),
        !m.controls.dom().contains(other),
    ensures
        manager::mode_of(m, known) == m.controls[known].mode,
        manager::mode_of(m, other) == InterfaceMode::Full,
        manager::forwards(m, other, Some(known)),
        manager::forwards(m, known, Some(other)) <==> m.controls[known].mode
            != InterfaceMode::Internal,
{
}

/// An announce that came in on a roaming interface goes out on no roaming interface and on no
/// boundary, and one that came in on a boundary goes out on no roaming interface.
pub proof fn announces_do_not_roam(
    m: ManagerView,
    from: AddressHash,
    to: AddressHash,
    packet: PacketView,
    now: u64,
)
    requires
        packet.header.packet_type == PacketType::Announce,
        packet.header.hops > 0,
        m.controls.dom().contains(from),
        m.controls.dom().contains(to),
        m.controls[from].mode == InterfaceMode::Roaming && (m.controls[to].mode
            == InterfaceMode::Roaming || m.controls[to].mode == InterfaceMode::Boundary) || (
        m.controls[from].mode == InterfaceMode::Boundary && m.controls[to].mode
            == InterfaceMode::Roaming),
    ensures
        !manager::after_offers(
            m,
            TxView { tx_type: TxMessageType::Broadcast(Some(from)), packet },
            now,
            m.ifaces.len() as int,
        ).1.contains(to),
{
    let msg = TxView { tx_type: TxMessageType::Broadcast(Some(from)), packet };
    let n = m.ifaces.len() as int;
    let out = manager::after_offers(m, msg, now, n).1;
    if out.contains(to) {
        let i = choose|i: int| 0 <= i < out.len() && out[i] == to;
        sent_where_meant(m, msg, now, n, i);
    }
}

/// A packet for one interface goes out there, unless it is stopped, and nowhere else.
pub proof fn direct_packets_reach_their_interface(
    m: ManagerView,
    to: AddressHash,
    packet: PacketView,
    now: u64,
    other: AddressHash,
)
    requires
        packet.header.packet_type != PacketType::Announce || packet.header.hops == 0,
    ensures
        ({
            let out = manager::after_offers(
                m,
                TxView { tx_type: TxMessageType::Direct(to), packet },
                now,
                m.ifaces.len() as int,
            ).1;
            &&& out.contains(to) <==> exists|k: int|
                0 <= k < m.ifaces.len() && (#[trigger] m.ifaces[k]).address == to
                    && !m.ifaces[k].stopped
            &&& other != to ==> !out.contains(other)
        }),
{
    let msg = TxView { tx_type: TxMessageType::Direct(to), packet };
    let n = m.ifaces.len() as int;
    let out = manager::after_offers(m, msg, now, n).1;
    plain_packets_pass(m, msg, now, n);
    if out.contains(to) {
        let i = choose|i: int| 0 <= i < out.len() && out[i] == to;
        sent_where_meant(m, msg, now, n, i);
    }
    if out.contains(other) {
        let i = choose|i: int| 0 <= i < out.len() && out[i] == other;
        sent_where_meant(m, msg, now, n, i);
    }
}

/// A broadcast packet that is no announce on its way goes out on every interface that is not
/// stopped, except the one it came in on, and the state stays as it is.
pub proof fn broadcasts_reach_all_others(
    m: ManagerView,
    from: Option<AddressHash>,
    packet: PacketView,
    now: u64,
    to: AddressHash,
)
    requires
        packet.header.packet_type != PacketType::Announce || packet.header.hops == 0,
    ensures
        ({
            let (after, out) = manager::after_offers(
                m,
                TxView { tx_type: TxMessageType::Broadcast(from), packet },
                now,
                m.ifaces.len() as int,
            );
            &&& after == m
            &&& out.contains(to) <==> from != Some(to) && exists|k: int|
                0 <= k < m.ifaces.len() && (#[trigger] m.ifaces[k]).address == to
                    && !m.ifaces[k].stopped
        }),
{
    let msg = TxView { tx_type: TxMessageType::Broadcast(from), packet };
    let n = m.ifaces.len() as int;
    let out = manager::after_offers(m, msg, now, n).1;
    plain_packets_pass(m, msg, now, n);
    if out.contains(to) {
        let i = choose|i: int| 0 <= i < out.len() && out[i] == to;
        sent_where_meant(m, msg, now, n, i);
    }
}

/// Nothing goes out on a stopped interface, and nothing is queued for it.
pub proof fn stopped_interfaces_get_nothing(m: ManagerView, i: int, msg: TxView, now: u64)
    requires
        0 <= i < m.ifaces.len(),
        m.ifaces[i].stopped,
    ensures
        manager::after_offer(m, i, msg, now) == (m, false),
{
}

/// An announce that is passed on to an interface goes out there at once, and is counted and
/// recorded, exactly when nothing is queued there, there is a budget and the airtime of the one
/// before has passed. Otherwise it does not go out, and nothing is counted.
pub proof fn passed_announces_go_out_or_wait(
    m: ManagerView,
    i: int,
    packet: PacketView,
    from: AddressHash,
    now: u64,
)
    requires
        0 <= i < m.ifaces.len(),
        !m.ifaces[i].stopped,
        packet.header.packet_type == PacketType::Announce,
        packet.header.hops > 0,
        m.controls.dom().contains(m.ifaces[i].address),
        control_state::control_wf(m.controls[m.ifaces[i].address]),
        m.ifaces[i].address != from,
        manager::forwards(m, m.ifaces[i].address, Some(from)),
    ensures
        ({
            let address = m.ifaces[i].address;
            let c = m.controls[address];
            let msg = TxView { tx_type: TxMessageType::Broadcast(Some(from)), packet };
            let (after, sent) = manager::after_offer(m, i, msg, now);
            &&& sent <==> c.queue.len() == 0 && c.bitrate > 0 && c.announce_cap > 0 && now
                >= c.announce_allowed_at
            &&& sent ==> after.controls[address].oa.last() == now
            &&& sent ==> after.ifaces[i].stats.announces_sent
                == m.ifaces[i].stats.announces_sent.wrapping_add(1)
            &&& sent ==> after.ifaces[i].stats.announce_bytes_sent
                == m.ifaces[i].stats.announce_bytes_sent.wrapping_add(
                control::accounted_len(packet) as u64,
            )
            &&& !sent ==> after.ifaces == m.ifaces
            &&& !sent ==> after.controls[address] == control_state::after_queue(c, packet, now)
            &&& after.controls.dom() == m.controls.dom()
            &&& forall|a: AddressHash| #[trigger]
                m.controls.dom().contains(a) && a != address ==> after.controls[a] == m.controls[a]
        }),
{
    let address = m.ifaces[i].address;
    let msg = TxView { tx_type: TxMessageType::Broadcast(Some(from)), packet };
    let after = manager::after_offer(m, i, msg, now).0;
    assert(after.controls.dom() =~= m.controls.dom());
    assert(control::sampled(m.controls[address].oa, now).last() == now);
}

/// The announce of an interface without a control state goes out at once.
pub proof fn uncontrolled_interfaces_get_announces(
    m: ManagerView,
    i: int,
    packet: PacketView,
    now: u64,
)
    requires
        0 <= i < m.ifaces.len(),
        !m.ifaces[i].stopped,
        !m.controls.dom().contains(m.ifaces[i].address),
    ensures
        manager::after_offer(
            m,
            i,
            TxView { tx_type: TxMessageType::Direct(m.ifaces[i].address), packet },
            now,
        ) == (m, true),
{
}

/// Only live interfaces are found, and all of them, in their order.
pub proof fn live_interfaces_are_found(ifaces: Seq<EntryView>, n: int, i: int)
    requires
        0 <= i < n <= ifaces.len(),
    ensures
        !ifaces[i].stopped ==> manager::live(ifaces, n).contains(ifaces[i]),
        forall|k: int|
            0 <= k < manager::live(ifaces, n).len() ==> !(#[trigger] manager::live(
                ifaces,
                n,
            )[k]).stopped && ifaces.contains(manager::live(ifaces, n)[k]),
    decreases n,
{
    let all = manager::live(ifaces, n);
    let before = manager::live(ifaces, n - 1);
    if n > 1 {
        live_interfaces_are_found(
            ifaces,
            n - 1,
            if i < n - 1 {
                i
            } else {
                0
            },
        );
    }
    if !ifaces[i].stopped {
        if i == n - 1 {
            assert(all[all.len() - 1] == ifaces[i]);
        } else {
            let k = choose|k: int| 0 <= k < before.len() && before[k] == ifaces[i];
            assert(all[k] == ifaces[i]);
        }
    }
    assert forall|k: int| 0 <= k < all.len() implies !(#[trigger] all[k]).stopped
        && ifaces.contains(all[k]) by {
        if k < before.len() {
            assert(all[k] == before[k]);
        } else {
            assert(all[k] == ifaces[n - 1]);
        }
    }
}

/// The first live interface is the one that none before it is live.
pub proof fn first_live_comes_first(m: ManagerView, i: int)
    requires
        0 <= i < m.ifaces.len(),
        !m.ifaces[i].stopped,
        forall|k: int| 0 <= k < i ==> (#[trigger] m.ifaces[k]).stopped,
    ensures
        manager::first_live(m) == Some(m.ifaces[i].address),
{
    none_live_before(m.ifaces, i);
    manager::live_is_prefix(m.ifaces, i + 1, m.ifaces.len() as int);
    assert(manager::live(m.ifaces, i + 1)[0] == m.ifaces[i]);
}

/// Where all interfaces are stopped, none is found.
pub proof fn none_live_before(ifaces: Seq<EntryView>, n: int)
    requires
        0 <= n <= ifaces.len(),
        forall|k: int| 0 <= k < n ==> (#[trigger] ifaces[k]).stopped,
    ensures
        manager::live(ifaces, n).len() == 0,
    decreases n,
{
    if n > 0 {
        none_live_before(ifaces, n - 1);
    }
}

/// The lowest bitrate is that of an interface that is up, and no interface that is up has a lower
/// one; there is one exactly when an interface is up.
pub proof fn lowest_bitrate_is_lowest(m: ManagerView, n: int, i: int)
    requires
        0 <= i < n <= m.ifaces.len(),
    ensures
        ({
            let lowest = manager::lowest_bitrate(m, n);
            let up = !m.ifaces[i].stopped && m.ifaces[i].stats.online && m.controls.dom().contains(
                m.ifaces[i].address,
            );
            &&& up ==> lowest is Some && lowest->0 <= m.controls[m.ifaces[i].address].bitrate
            &&& lowest is Some ==> exists|k: int|
                0 <= k < n && !(#[trigger] m.ifaces[k]).stopped && m.ifaces[k].stats.online
                    && m.controls.dom().contains(m.ifaces[k].address)
                    && m.controls[m.ifaces[k].address].bitrate == lowest->0
        }),
    decreases n,
{
    let rest = manager::lowest_bitrate(m, n - 1);
    if n > 1 {
        lowest_bitrate_is_lowest(
            m,
            n - 1,
            if i < n - 1 {
                i
            } else {
                0
            },
        );
    }
    if manager::lowest_bitrate(m, n) is Some && manager::lowest_bitrate(m, n) == rest {
        let k = choose|k: int|
            0 <= k < n - 1 && !(#[trigger] m.ifaces[k]).stopped && m.ifaces[k].stats.online
                && m.controls.dom().contains(m.ifaces[k].address)
                && m.controls[m.ifaces[k].address].bitrate == rest->0;
        assert(!m.ifaces[k].stopped);
    } else if manager::lowest_bitrate(m, n) is Some {
        assert(!m.ifaces[n - 1].stopped);
    }
}

/// The interfaces with a property are those that are not stopped and whose control state has it.
pub proof fn controlled_interfaces_are_found(
    m: ManagerView,
    holds: spec_fn(ControlView) -> bool,
    n: int,
    address: AddressHash,
)
    requires
        0 <= n <= m.ifaces.len(),
    ensures
        manager::controlled(m, holds, n).contains(address) <==> m.controls.dom().contains(address)
            && holds(m.controls[address]) && exists|k: int|
            0 <= k < n && (#[trigger] m.ifaces[k]).address == address && !m.ifaces[k].stopped,
    decreases n,
{
    if n > 0 {
        controlled_interfaces_are_found(m, holds, n - 1, address);
        let all = manager::controlled(m, holds, n);
        let before = manager::controlled(m, holds, n - 1);
        if before.contains(address) {
            let k = choose|k: int| 0 <= k < before.len() && before[k] == address;
            assert(all[k] == address);
        }
        if all.contains(address) {
            let k = choose|k: int| 0 <= k < all.len() && all[k] == address;
            if k < before.len() {
                assert(before[k] == address);
            } else {
                assert(m.ifaces[n - 1].address == address);
            }
        }
        if all.len() > before.len() {
            assert(all[all.len() - 1] == m.ifaces[n - 1].address);
        }
    } else {
        assert(!manager::controlled(m, holds, n).contains(address));
    }
}

/// Held announces come out of each interface as its own control state releases them, at most one
/// from each, under the address of that interface; the other interfaces keep theirs.
pub proof fn each_interface_releases_its_own(m: ManagerView, now: u64, n: int, i: int)
    requires
        0 <= i < n <= m.order.len(),
        m.order.no_duplicates(),
    ensures
        ({
            let (after, out) = manager::after_releases(m, now, n);
            let address = m.order[i];
            let (c, released) = control_state::after_release(m.controls[address], now);
            &&& after.controls[address] == c
            &&& released is Some ==> out.contains((address, released->0))
            &&& out.len() <= n
        }),
    decreases n,
{
    let (before, out) = manager::after_releases(m, now, n - 1);
    let all = manager::after_releases(m, now, n).1;
    releases_bound(m, now, n);
    if i < n - 1 {
        each_interface_releases_its_own(m, now, n - 1, i);
        assert(m.order[i] != m.order[n - 1]);
        let address = m.order[i];
        let released = control_state::after_release(m.controls[address], now).1;
        if released is Some {
            let k = choose|k: int| 0 <= k < out.len() && out[k] == (address, released->0);
            assert(all[k] == (address, released->0));
        }
    } else {
        let address = m.order[i];
        let released = control_state::after_release(m.controls[address], now).1;
        if released is Some {
            assert(all[all.len() - 1] == (address, released->0));
        }
    }
}

proof fn releases_bound(m: ManagerView, now: u64, n: int)
    requires
        0 <= n <= m.order.len(),
    ensures
        manager::after_releases(m, now, n).1.len() <= n,
    decreases n,
{
    if n > 0 {
        releases_bound(m, now, n - 1);
    }
}

/// Working off a queue stops when nothing may be taken from it any more: either it is empty, or
/// the airtime of what went out has not passed yet.
pub proof fn queues_are_worked_off(c: ControlView, now: u64, n: int)
    requires
        n > c.queue.len(),
    ensures
        ({
            let (after, packets) = manager::after_takes(c, now, n);
            &&& after.queue.len() == 0 || now < after.announce_allowed_at
            &&& after.queue.len() + packets.len() <= c.queue.len()
        }),
    decreases n,
{
    control_state::live_queue_kept(c.queue, now);
    let live = control_state::live_queue(c.queue, now);
    if live.len() > 0 {
        control_state::first_queued_bounds(live, live.len() as int);
    }
    let (next, taken) = control_state::after_take(c, now);
    if taken is Some {
        let sent = ControlView { oa: control::sampled(next.oa, now), ..next };
        queues_are_worked_off(sent, now, n - 1);
    }
}

/// With airtime, the first announce that is due goes out.
pub proof fn due_announces_go_out(c: ControlView, now: u64, n: int)
    requires
        n > 0,
        control_state::after_take(c, now).1 is Some,
    ensures
        manager::after_takes(c, now, n).1.len() > 0,
        manager::after_takes(c, now, n).1[0] == control_state::after_take(c, now).1->0,
{
}

/// What comes from a queue goes out on the interface of that queue, and on no other.
pub proof fn queued_announces_stay_on_their_interface(
    address: AddressHash,
    packets: Seq<PacketView>,
    i: int,
)
    requires
        0 <= i < packets.len(),
    ensures
        manager::direct(address, packets).len() == packets.len(),
        manager::direct(address, packets)[i].tx_type == TxMessageType::Direct(address),
        manager::direct(address, packets)[i].packet == packets[i],
{
}

/// Each interface works off its own queue: its control state is left as working it off leaves it,
/// and what came out is among what is sent, for that interface.
pub proof fn each_interface_works_off_its_queue(m: ManagerView, now: u64, n: int, i: int, k: int)
    requires
        0 <= i < n <= m.order.len(),
        m.order.no_duplicates(),
        ({
            let c = m.controls[m.order[i]];
            0 <= k < manager::after_takes(c, now, c.queue.len() as int + 1).1.len()
        }),
    ensures
        ({
            let (after, out) = manager::after_queues(m, now, n);
            let c = m.controls[m.order[i]];
            let (next, packets) = manager::after_takes(c, now, c.queue.len() as int + 1);
            &&& after.controls[m.order[i]] == next
            &&& out.contains(
                (TxView { tx_type: TxMessageType::Direct(m.order[i]), packet: packets[k] }),
            )
        }),
    decreases n,
{
    let (before, out) = manager::after_queues(m, now, n - 1);
    let all = manager::after_queues(m, now, n).1;
    let c = m.controls[m.order[i]];
    let packets = manager::after_takes(c, now, c.queue.len() as int + 1).1;
    let wanted = TxView { tx_type: TxMessageType::Direct(m.order[i]), packet: packets[k] };
    if i < n - 1 {
        each_interface_works_off_its_queue(m, now, n - 1, i, k);
        assert(m.order[i] != m.order[n - 1]);
        let j = choose|j: int| 0 <= j < out.len() && out[j] == wanted;
        assert(all[j] == wanted);
    } else {
        assert(all[out.len() + k] == wanted);
    }
}

/// An interface is found by its address, the first one where there are more.
pub proof fn interfaces_are_found_by_address(ifaces: Seq<EntryView>, address: AddressHash, from: int)
    requires
        0 <= from <= ifaces.len(),
    ensures
        ({
            let at = manager::iface_at(ifaces, address, from);
            &&& from <= at <= ifaces.len()
            &&& at < ifaces.len() ==> ifaces[at].address == address
            &&& forall|k: int| from <= k < at ==> (#[trigger] ifaces[k]).address != address
        }),
        ({
            let at = manager::live_at(ifaces, address, from);
            &&& from <= at <= ifaces.len()
            &&& at < ifaces.len() ==> ifaces[at].address == address && !ifaces[at].stopped
            &&& forall|k: int|
                from <= k < at ==> (#[trigger] ifaces[k]).address != address || ifaces[k].stopped
        }),
    decreases ifaces.len() - from,
{
    if from < ifaces.len() {
        interfaces_are_found_by_address(ifaces, address, from + 1);
    }
}

/// What comes in and goes out is recorded on the interface that it came in or went out on, and on
/// no other.
pub proof fn traffic_is_recorded_where_it_is(
    m: ManagerView,
    address: AddressHash,
    other: AddressHash,
    now: u64,
)
    requires
        m.controls.dom().contains(address),
        other != address,
    ensures
        manager::with_sample_ia(m, address, now).controls[address].ia.last() == now,
        manager::with_sample_oa(m, address, now).controls[address].oa.last() == now,
        manager::with_sample_ip(m, address, now).controls[address].ip.last() == now,
        manager::with_sample_op(m, address, now).controls[address].op.last() == now,
        manager::with_sample_ia(m, address, now).controls[other] == m.controls[other],
        manager::with_sample_oa(m, address, now).controls[other] == m.controls[other],
        manager::with_sample_ip(m, address, now).controls[other] == m.controls[other],
        manager::with_sample_op(m, address, now).controls[other] == m.controls[other],
        manager::with_sample_ia(m, address, now).ifaces == m.ifaces,
        manager::with_sample_oa(m, address, now).ifaces == m.ifaces,
        manager::with_sample_ip(m, address, now).ifaces == m.ifaces,
        manager::with_sample_op(m, address, now).ifaces == m.ifaces,
{
}

/// A message is offered to all interfaces in turn; those that take it are named in that order.
pub proof fn messages_are_offered_in_turn(m: ManagerView, msg: TxView, now: u64, n: int)
    requires
        0 <= n < m.ifaces.len(),
    ensures
        ({
            let (before, out) = manager::after_offers(m, msg, now, n);
            let (next, takes) = manager::after_offer(before, n, msg, now);
            &&& manager::after_offers(m, msg, now, 0).0 == m
            &&& manager::after_offers(m, msg, now, 0).1.len() == 0
            &&& manager::after_offers(m, msg, now, n + 1).0 == next
            &&& takes ==> manager::after_offers(m, msg, now, n + 1).1 == out.push(m.ifaces[n].address)
            &&& !takes ==> manager::after_offers(m, msg, now, n + 1).1 == out
        }),
{
}

} // verus!
