//! The interfaces of a node: registration, traffic control, statistics, and which interface a
//! packet goes out on.
//!
//! The channels to the workers of the interfaces are kept elsewhere, by address; a worker that has
//! ended is marked as stopped here.

use vstd::prelude::*;
use vstd::string::*;

use crate::bytes;
use crate::error::RnsError;
use crate::hash;
use crate::hash::AddressHash;
use crate::iface::control;
use crate::iface::control::InterfaceMode;
use crate::iface::control_state;
use crate::iface::control_state::{ControlView, IfaceControlState};
use crate::iface::counters;
use crate::iface::counters::InterfaceCounters;
use crate::iface::ifac;
use crate::iface::ifac::IfacKey;
use crate::packet::{Packet, PacketType, PacketView};
use crate::table::Table;

verus! {

/// Where a packet goes out.
#[derive(Debug, PartialEq, Eq, Copy, Clone)]
pub enum TxMessageType {
    /// On all interfaces, but not back on the one that it came in on.
    Broadcast(Option<AddressHash>),
    /// On one interface.
    Direct(AddressHash),
}

/// A packet to send.
#[derive(Debug, PartialEq, Eq)]
pub struct TxMessage {
    pub tx_type: TxMessageType,
    pub packet: Packet,
}

/// A packet to send, as a mathematical value.
#[verifier::ext_equal]
pub struct TxView {
    pub tx_type: TxMessageType,
    pub packet: PacketView,
}

impl View for TxMessage {
    type V = TxView;

    open spec fn view(&self) -> TxView {
        TxView { tx_type: self.tx_type, packet: self.packet@ }
    }
}

/// A packet that came in, and the interface that it came in on.
#[derive(Debug, PartialEq, Eq)]
pub struct RxMessage {
    pub address: AddressHash,
    pub packet: Packet,
}

/// A registered interface.
pub struct InterfaceEntry {
    pub address: AddressHash,
    /// The configured name.
    pub name: String,
    /// The type of the interface.
    pub kind: String,
    /// Whether its worker has ended.
    pub stopped: bool,
    pub stats: InterfaceCounters,
    /// The access key of the interface.
    pub ifac: Option<IfacKey>,
}

/// A registered interface, as a mathematical value.
#[verifier::ext_equal]
pub struct EntryView {
    pub address: AddressHash,
    pub name: Seq<char>,
    pub kind: Seq<char>,
    pub stopped: bool,
    pub stats: InterfaceCounters,
    pub ifac: Option<IfacKey>,
}

impl View for InterfaceEntry {
    type V = EntryView;

    open spec fn view(&self) -> EntryView {
        EntryView {
            address: self.address,
            name: self.name@,
            kind: self.kind@,
            stopped: self.stopped,
            stats: self.stats,
            ifac: self.ifac,
        }
    }
}

/// Statistics of one interface. The signal-to-noise ratio and the link quality are the bits of
/// single precision numbers.
#[derive(Debug, PartialEq, Eq)]
pub struct InterfaceStats {
    pub address: AddressHash,
    pub name: String,
    pub kind: String,
    pub sent: u64,
    pub received: u64,
    pub tx_bytes: u64,
    pub rx_bytes: u64,
    pub online: bool,
    pub announces_received: u64,
    pub announces_sent: u64,
    pub announce_bytes_received: u64,
    pub announce_bytes_sent: u64,
    pub path_requests_received: u64,
    pub path_requests_sent: u64,
    pub protocol_violations: u64,
    pub ifac_violations: u64,
    pub packet_filter_hits: u64,
    pub rssi: Option<i16>,
    pub snr: Option<u32>,
    pub quality: Option<u32>,
}

/// Status of one interface.
pub type IfaceStats = InterfaceStats;

/// Whether statistics are those of an interface.
pub open spec fn stats_of(s: InterfaceStats, e: EntryView) -> bool {
    &&& s.address == e.address
    &&& s.name@ == e.name
    &&& s.kind@ == e.kind
    &&& s.sent == e.stats.sent
    &&& s.received == e.stats.received
    &&& s.tx_bytes == e.stats.tx_bytes
    &&& s.rx_bytes == e.stats.rx_bytes
    &&& s.online == e.stats.online
    &&& s.announces_received == e.stats.announces_received
    &&& s.announces_sent == e.stats.announces_sent
    &&& s.announce_bytes_received == e.stats.announce_bytes_received
    &&& s.announce_bytes_sent == e.stats.announce_bytes_sent
    &&& s.path_requests_received == e.stats.path_requests_received
    &&& s.path_requests_sent == e.stats.path_requests_sent
    &&& s.protocol_violations == e.stats.protocol_violations
    &&& s.ifac_violations == e.stats.ifac_violations
    &&& s.packet_filter_hits == e.stats.packet_filter_hits
    &&& s.rssi == e.stats.rssi
    &&& s.snr == counters::reported(e.stats.snr_bits)
    &&& s.quality == counters::reported(e.stats.quality_bits)
}

impl InterfaceEntry {
    /// The statistics of the interface.
    pub fn stats(&self) -> (r: InterfaceStats)
        ensures
            stats_of(r, self@),
    {
        InterfaceStats {
            address: self.address,
            name: self.name.clone(),
            kind: self.kind.clone(),
            sent: self.stats.sent(),
            received: self.stats.received(),
            tx_bytes: self.stats.tx_bytes(),
            rx_bytes: self.stats.rx_bytes(),
            online: self.stats.online(),
            announces_received: self.stats.announces_received(),
            announces_sent: self.stats.announces_sent(),
            announce_bytes_received: self.stats.announce_bytes_received(),
            announce_bytes_sent: self.stats.announce_bytes_sent(),
            path_requests_received: self.stats.path_requests_received(),
            path_requests_sent: self.stats.path_requests_sent(),
            protocol_violations: self.stats.protocol_violations(),
            ifac_violations: self.stats.ifac_violations(),
            packet_filter_hits: self.stats.packet_filter_hits(),
            rssi: self.stats.rssi(),
            snr: self.stats.snr(),
            quality: self.stats.quality(),
        }
    }
}

/// The interfaces of a node, as a mathematical value.
#[verifier::ext_equal]
pub struct ManagerView {
    /// How many interfaces were ever registered.
    pub counter: u64,
    pub ifaces: Seq<EntryView>,
    pub controls: Map<AddressHash, ControlView>,
    /// The addresses that have a control state, in the order in which they are gone through.
    pub order: Seq<AddressHash>,
}

/// The interfaces of a node.
pub struct InterfaceManager {
    pub counter: u64,
    pub ifaces: Vec<InterfaceEntry>,
    pub controls: Table<AddressHash, IfaceControlState>,
}

/// Interfaces as mathematical values.
pub open spec fn entry_views(ifaces: Seq<InterfaceEntry>) -> Seq<EntryView> {
    ifaces.map_values(|e: InterfaceEntry| e@)
}

/// Control states as mathematical values.
pub open spec fn control_views(controls: Map<AddressHash, IfaceControlState>) -> Map<
    AddressHash,
    ControlView,
> {
    controls.map_values(|c: IfaceControlState| c@)
}

impl View for InterfaceManager {
    type V = ManagerView;

    open spec fn view(&self) -> ManagerView {
        ManagerView {
            counter: self.counter,
            ifaces: entry_views(self.ifaces@),
            controls: control_views(self.controls@),
            order: self.controls.keys(),
        }
    }
}

/// The address of an interface: a hash over its number and random bytes.
pub open spec fn interface_seed(counter: u64, random: Seq<u8>) -> Seq<u8> {
    bytes::le_bytes(counter as nat, 8) + random.subrange(8, 16)
}

/// Whether an address is one that an interface with this number can get, by some random bytes.
pub open spec fn is_drawn(counter: u64, address: AddressHash) -> bool {
    exists|random: Seq<u8>|
        random.len() >= 16 && address@ == hash::sha256_digest(
            #[trigger] interface_seed(counter, random),
        ).subrange(0, 16)
}

/// The address of an interface: a hash over its number and random bytes.
pub fn interface_address(counter: u64, random: &[u8]) -> (r: AddressHash)
    requires
        random@.len() >= 16,
    ensures
        r@ == hash::sha256_digest(interface_seed(counter, random@)).subrange(0, 16),
{
    let mut seed: Vec<u8> = Vec::new();
    bytes::append_le64(&mut seed, counter);
    bytes::append(&mut seed, &random[8..16]);
    assert(seed@ =~= interface_seed(counter, random@));
    AddressHash::new_from_slice(&seed)
}

/// Where an interface is, or the number of interfaces.
pub open spec fn iface_at(ifaces: Seq<EntryView>, address: AddressHash, from: int) -> int
    decreases ifaces.len() - from,
{
    if from < 0 || from >= ifaces.len() {
        ifaces.len() as int
    } else if ifaces[from].address == address {
        from
    } else {
        iface_at(ifaces, address, from + 1)
    }
}

/// Whether an interface is registered.
pub open spec fn has_iface(m: ManagerView, address: AddressHash) -> bool {
    iface_at(m.ifaces, address, 0) < m.ifaces.len()
}

/// The interfaces with one of them changed.
pub open spec fn with_entry(m: ManagerView, at: int, entry: EntryView) -> ManagerView {
    ManagerView { ifaces: m.ifaces.update(at, entry), ..m }
}

/// The interfaces with a control state changed.
pub open spec fn with_control(m: ManagerView, address: AddressHash, c: ControlView) -> ManagerView {
    ManagerView { controls: m.controls.insert(address, c), ..m }
}

/// The interfaces with the counters of one of them changed, where it is registered.
pub open spec fn with_stats(
    m: ManagerView,
    address: AddressHash,
    change: spec_fn(InterfaceCounters) -> InterfaceCounters,
) -> ManagerView {
    let at = iface_at(m.ifaces, address, 0);
    if at < m.ifaces.len() {
        with_entry(m, at, EntryView { stats: change(m.ifaces[at].stats), ..m.ifaces[at] })
    } else {
        m
    }
}

/// The mode of an interface; that of an unknown one is full.
pub open spec fn mode_of(m: ManagerView, address: AddressHash) -> InterfaceMode {
    if m.controls.dom().contains(address) {
        m.controls[address].mode
    } else {
        InterfaceMode::Full
    }
}

/// Whether an announce from one interface goes on to another. Into internal interfaces only those
/// on a boundary, or those that say so, pass announces on. Roaming interfaces get none from
/// roaming ones or from a boundary, and a boundary gets none from roaming ones. What comes from
/// this node goes everywhere.
pub open spec fn forwards(m: ManagerView, to: AddressHash, from: Option<AddressHash>) -> bool {
    match from {
        None => true,
        Some(from) => match mode_of(m, to) {
            InterfaceMode::Internal => mode_of(m, from) == InterfaceMode::Boundary || (
            m.controls.dom().contains(from) && m.controls[from].announces_to_internal == Some(
                true,
            )),
            InterfaceMode::Roaming => mode_of(m, from) != InterfaceMode::Roaming && mode_of(
                m,
                from,
            ) != InterfaceMode::Boundary,
            InterfaceMode::Boundary => mode_of(m, from) != InterfaceMode::Roaming,
            _ => true,
        },
    }
}

/// Whether a packet is an announce that is passed on.
pub open spec fn is_forwarded_announce(p: PacketView) -> bool {
    p.header.packet_type == PacketType::Announce && p.header.hops > 0
}

/// Whether a packet is meant for an interface.
pub open spec fn is_for(m: ManagerView, address: AddressHash, msg: TxView) -> bool {
    match msg.tx_type {
        TxMessageType::Broadcast(from) => from != Some(address) && (is_forwarded_announce(
            msg.packet,
        ) ==> forwards(m, address, from)),
        TxMessageType::Direct(to) => to == address,
    }
}

/// The state after a packet was offered to the `i`-th interface, and whether it goes out there.
pub open spec fn after_offer(m: ManagerView, i: int, msg: TxView, now: u64) -> (ManagerView, bool) {
    let entry = m.ifaces[i];
    if entry.stopped || !is_for(m, entry.address, msg) {
        (m, false)
    } else if !is_forwarded_announce(msg.packet) || !m.controls.dom().contains(entry.address) {
        (m, true)
    } else {
        let c = m.controls[entry.address];
        let size = control::accounted_len(msg.packet);
        let (tried, allowed) = control_state::after_try(c, size, now);
        if allowed {
            let sent = ControlView { oa: control::sampled(tried.oa, now), ..tried };
            let stats = InterfaceCounters {
                announces_sent: entry.stats.announces_sent.wrapping_add(1),
                announce_bytes_sent: entry.stats.announce_bytes_sent.wrapping_add(size as u64),
                ..entry.stats
            };
            (
                with_entry(
                    with_control(m, entry.address, sent),
                    i,
                    EntryView { stats, ..entry },
                ),
                true,
            )
        } else {
            (
                with_control(m, entry.address, control_state::after_queue(tried, msg.packet, now)),
                false,
            )
        }
    }
}

/// The state after a packet was offered to the first `n` interfaces, and where it goes out.
pub open spec fn after_offers(m: ManagerView, msg: TxView, now: u64, n: int) -> (
    ManagerView,
    Seq<AddressHash>,
)
    decreases n,
{
    if n <= 0 {
        (m, Seq::empty())
    } else {
        let (before, out) = after_offers(m, msg, now, n - 1);
        let (next, sends) = after_offer(before, n - 1, msg, now);
        (
            next,
            if sends {
                out.push(m.ifaces[n - 1].address)
            } else {
                out
            },
        )
    }
}

/// The addresses of the first `n` interfaces that are not stopped and that a property of their
/// control states holds of.
pub open spec fn controlled(m: ManagerView, holds: spec_fn(ControlView) -> bool, n: int) -> Seq<
    AddressHash,
>
    decreases n,
{
    if n <= 0 {
        Seq::empty()
    } else {
        let e = m.ifaces[n - 1];
        if !e.stopped && m.controls.dom().contains(e.address) && holds(m.controls[e.address]) {
            controlled(m, holds, n - 1).push(e.address)
        } else {
            controlled(m, holds, n - 1)
        }
    }
}

/// The first `n` interfaces without the stopped ones.
pub open spec fn live(ifaces: Seq<EntryView>, n: int) -> Seq<EntryView>
    decreases n,
{
    if n <= 0 {
        Seq::empty()
    } else if ifaces[n - 1].stopped {
        live(ifaces, n - 1)
    } else {
        live(ifaces, n - 1).push(ifaces[n - 1])
    }
}

/// The address of the first interface that is not stopped.
pub open spec fn first_live(m: ManagerView) -> Option<AddressHash> {
    let all = live(m.ifaces, m.ifaces.len() as int);
    if all.len() > 0 {
        Some(all[0].address)
    } else {
        None
    }
}

/// The live interfaces among the first `n` come first among those of more.
pub proof fn live_is_prefix(ifaces: Seq<EntryView>, n: int, m: int)
    requires
        0 <= n <= m,
    ensures
        live(ifaces, n).len() <= live(ifaces, m).len(),
        forall|i: int|
            0 <= i < live(ifaces, n).len() ==> #[trigger] live(ifaces, m)[i] == live(ifaces, n)[i],
    decreases m,
{
    if n < m {
        live_is_prefix(ifaces, n, m - 1);
    }
}

/// The lowest bitrate among the first `n` interfaces that are up and have a control state.
pub open spec fn lowest_bitrate(m: ManagerView, n: int) -> Option<u64>
    decreases n,
{
    if n <= 0 {
        None
    } else {
        let e = m.ifaces[n - 1];
        let rest = lowest_bitrate(m, n - 1);
        if !e.stopped && e.stats.online && m.controls.dom().contains(e.address) {
            let rate = m.controls[e.address].bitrate;
            match rest {
                Some(lowest) if lowest <= rate => rest,
                _ => Some(rate),
            }
        } else {
            rest
        }
    }
}

/// The longest packet of a type of interface, where it can be negotiated.
pub open spec fn hw_mtu_of(kind: Seq<char>) -> Option<usize> {
    if kind == "LocalServer"@ || kind == "LocalClient"@ || kind == "TcpClient"@ || kind
        == "TcpServer"@ {
        Some(262_144)
    } else if kind == "BackboneClient"@ || kind == "BackboneServer"@ {
        Some(1_048_576)
    } else if kind == "AutoInterface"@ {
        Some(1_196)
    } else {
        None
    }
}

/// The first interface with an address that is not stopped, from `from` on.
pub open spec fn live_at(ifaces: Seq<EntryView>, address: AddressHash, from: int) -> int
    decreases ifaces.len() - from,
{
    if from < 0 || from >= ifaces.len() {
        ifaces.len() as int
    } else if ifaces[from].address == address && !ifaces[from].stopped {
        from
    } else {
        live_at(ifaces, address, from + 1)
    }
}

/// The type of a live interface.
pub open spec fn kind_of(m: ManagerView, address: AddressHash) -> Option<Seq<char>> {
    let at = live_at(m.ifaces, address, 0);
    if at < m.ifaces.len() {
        Some(m.ifaces[at].kind)
    } else {
        None
    }
}

/// The longest packet of an interface, where it can be negotiated.
pub open spec fn hw_mtu(m: ManagerView, address: AddressHash) -> Option<usize> {
    match kind_of(m, address) {
        Some(kind) => hw_mtu_of(kind),
        None => None,
    }
}

/// The state after held announces were released from the first `n` control states, and what was
/// released.
pub open spec fn after_releases(m: ManagerView, now: u64, n: int) -> (
    ManagerView,
    Seq<(AddressHash, PacketView)>,
)
    decreases n,
{
    if n <= 0 {
        (m, Seq::empty())
    } else {
        let (before, out) = after_releases(m, now, n - 1);
        let address = m.order[n - 1];
        let (c, released) = control_state::after_release(m.controls[address], now);
        (
            with_control(before, address, c),
            match released {
                Some(packet) => out.push((address, packet)),
                None => out,
            },
        )
    }
}

/// The control state after at most `n` announces were taken from its queue, and those.
pub open spec fn after_takes(c: ControlView, now: u64, n: int) -> (ControlView, Seq<PacketView>)
    decreases n,
{
    if n <= 0 {
        (c, Seq::empty())
    } else {
        let (next, taken) = control_state::after_take(c, now);
        match taken {
            Some(packet) => {
                let sent = ControlView { oa: control::sampled(next.oa, now), ..next };
                let (rest, packets) = after_takes(sent, now, n - 1);
                (rest, seq![packet] + packets)
            },
            None => (next, Seq::empty()),
        }
    }
}

/// Packets to send on one interface.
pub open spec fn direct(address: AddressHash, packets: Seq<PacketView>) -> Seq<TxView> {
    packets.map_values(
        |p: PacketView| TxView { tx_type: TxMessageType::Direct(address), packet: p },
    )
}

/// The state after the queues of the first `n` control states were worked off, as far as there was
/// airtime, and what is sent.
pub open spec fn after_queues(m: ManagerView, now: u64, n: int) -> (ManagerView, Seq<TxView>)
    decreases n,
{
    if n <= 0 {
        (m, Seq::empty())
    } else {
        let (before, out) = after_queues(m, now, n - 1);
        let address = m.order[n - 1];
        let c = m.controls[address];
        let (next, packets) = after_takes(c, now, c.queue.len() as int + 1);
        (with_control(before, address, next), out + direct(address, packets))
    }
}

/// Whether the next announce of each queue can be taken, or there is none to take now.
pub open spec fn queues_ready(m: ManagerView, now: u64) -> bool {
    forall|a: AddressHash| #[trigger]
        m.controls.dom().contains(a) ==> control_state::can_take(m.controls[a], now)
}

/// The interfaces after an announce that came in was noted in a control state, where there is one.
pub open spec fn with_sample_ia(m: ManagerView, address: AddressHash, now: u64) -> ManagerView {
    if m.controls.dom().contains(address) {
        let c = m.controls[address];
        with_control(m, address, ControlView { ia: control::sampled(c.ia, now), ..c })
    } else {
        m
    }
}

/// The interfaces after an announce that went out was noted in a control state, where there is one.
pub open spec fn with_sample_oa(m: ManagerView, address: AddressHash, now: u64) -> ManagerView {
    if m.controls.dom().contains(address) {
        let c = m.controls[address];
        with_control(m, address, ControlView { oa: control::sampled(c.oa, now), ..c })
    } else {
        m
    }
}

/// The interfaces after a path request that came in was noted in a control state, where there is one.
pub open spec fn with_sample_ip(m: ManagerView, address: AddressHash, now: u64) -> ManagerView {
    if m.controls.dom().contains(address) {
        let c = m.controls[address];
        with_control(m, address, ControlView { ip: control::sampled(c.ip, now), ..c })
    } else {
        m
    }
}

/// The interfaces after a path request that went out was noted in a control state, where there is one.
pub open spec fn with_sample_op(m: ManagerView, address: AddressHash, now: u64) -> ManagerView {
    if m.controls.dom().contains(address) {
        let c = m.controls[address];
        with_control(m, address, ControlView { op: control::sampled(c.op, now), ..c })
    } else {
        m
    }
}

impl InterfaceManager {
    /// Each address has one control state, and those are well-formed.
    pub open spec fn wf(&self) -> bool {
        &&& self.controls.wf()
        &&& forall|a: AddressHash| #[trigger]
            self.controls@.dom().contains(a) ==> self.controls@[a].wf()
    }

    /// No interfaces.
    pub fn new() -> (r: Self)
        ensures
            r.wf(),
            r@ == (ManagerView {
                counter: 0,
                ifaces: Seq::empty(),
                controls: Map::empty(),
                order: Seq::empty(),
            }),
    {
        let r: InterfaceManager = InterfaceManager {
            counter: 0,
            ifaces: Vec::new(),
            controls: Table::new(),
        };
        assert(r@.ifaces =~= Seq::<EntryView>::empty());
        assert(r@.controls =~= Map::<AddressHash, ControlView>::empty());
        r
    }

    /// Registers an interface without a name.
    pub fn new_channel(&mut self, now: u64) -> (r: AddressHash)
        requires
            old(self).wf(),
            old(self)@.counter < u64::MAX,
        ensures
            final(self).wf(),
            is_drawn((old(self)@.counter + 1) as u64, r),
            is_registered(old(self)@, final(self)@, r, ""@, ""@, now),
    {
        self.new_channel_named("", "", now)
    }

    /// Registers an interface under a name and a type. Its address is new, up to chance.
    pub fn new_channel_named(&mut self, name: &str, kind: &str, now: u64) -> (r: AddressHash)
        requires
            old(self).wf(),
            old(self)@.counter < u64::MAX,
        ensures
            final(self).wf(),
            is_drawn((old(self)@.counter + 1) as u64, r),
            is_registered(old(self)@, final(self)@, r, name@, kind@, now),
    {
        let random: [u8; 32] = hash::random_bytes();
        let ghost seed = interface_seed((self@.counter + 1) as u64, random@);
        let r: AddressHash = self.register(name, kind, &random, now);
        assert(random@.len() == 32);
        assert(r@ == hash::sha256_digest(seed).subrange(0, 16));
        r
    }

    /// Registers an interface whose address is made with the given random bytes.
    pub fn register(&mut self, name: &str, kind: &str, random: &[u8], now: u64) -> (r: AddressHash)
        requires
            old(self).wf(),
            old(self)@.counter < u64::MAX,
            random@.len() >= 16,
        ensures
            final(self).wf(),
            r@ == hash::sha256_digest(
                interface_seed((old(self)@.counter + 1) as u64, random@),
            ).subrange(0, 16),
            is_registered(old(self)@, final(self)@, r, name@, kind@, now),
    {
        self.counter += 1;
        let address: AddressHash = interface_address(self.counter, random);
        let entry: InterfaceEntry = InterfaceEntry {
            address,
            name: name.to_owned(),
            kind: kind.to_owned(),
            stopped: false,
            stats: InterfaceCounters::default(),
            ifac: None,
        };
        let ghost view = entry@;
        self.ifaces.push(entry);
        assert(self@.ifaces =~= old(self)@.ifaces.push(view));
        let control: IfaceControlState = IfaceControlState::new(now);
        let ghost fresh = control@;
        self.controls.insert(address, control);
        assert(self@.controls =~= old(self)@.controls.insert(address, fresh));
        address
    }

    /// Where an interface is, or the number of interfaces.
    fn find(&self, address: &AddressHash) -> (r: usize)
        ensures
            r == iface_at(self@.ifaces, *address, 0),
            r <= self.ifaces@.len(),
            r < self.ifaces@.len() ==> self@.ifaces[r as int] == self.ifaces@[r as int]@,
    {
        let mut i: usize = 0;
        while i < self.ifaces.len()
            invariant
                i <= self.ifaces@.len(),
                iface_at(self@.ifaces, *address, 0) == iface_at(self@.ifaces, *address, i as int),
            decreases self.ifaces@.len() - i,
        {
            assert(self@.ifaces[i as int] == self.ifaces@[i as int]@);
            if self.ifaces[i].address.same(address) {
                return i;
            }
            i += 1;
        }
        i
    }

    /// Names an interface anew.
    pub fn set_iface_name(&mut self, address: &AddressHash, name: &str)
        requires
            old(self).wf(),
        ensures
            final(self).wf(),
            final(self)@ == ({
                let at = iface_at(old(self)@.ifaces, *address, 0);
                if at < old(self)@.ifaces.len() {
                    with_entry(
                        old(self)@,
                        at,
                        EntryView { name: name@, ..old(self)@.ifaces[at] },
                    )
                } else {
                    old(self)@
                }
            }),
    {
        let at: usize = self.find(address);
        if at < self.ifaces.len() {
            self.ifaces[at].name = name.to_owned();
            assert(self@.ifaces =~= old(self)@.ifaces.update(
                at as int,
                EntryView { name: name@, ..old(self)@.ifaces[at as int] },
            ));
        }
    }

    /// Marks an interface whose worker has ended.
    pub fn mark_stopped(&mut self, address: &AddressHash)
        requires
            old(self).wf(),
        ensures
            final(self).wf(),
            final(self)@ == ({
                let at = iface_at(old(self)@.ifaces, *address, 0);
                if at < old(self)@.ifaces.len() {
                    with_entry(
                        old(self)@,
                        at,
                        EntryView { stopped: true, ..old(self)@.ifaces[at] },
                    )
                } else {
                    old(self)@
                }
            }),
    {
        let at: usize = self.find(address);
        if at < self.ifaces.len() {
            self.ifaces[at].stopped = true;
            assert(self@.ifaces =~= old(self)@.ifaces.update(
                at as int,
                EntryView { stopped: true, ..old(self)@.ifaces[at as int] },
            ));
        }
    }

    /// Takes an interface and its control state out. Returns whether it was registered; its worker
    /// is to be stopped.
    pub fn stop_iface(&mut self, address: &AddressHash) -> (r: bool)
        requires
            old(self).wf(),
        ensures
            final(self).wf(),
            r == has_iface(old(self)@, *address),
            final(self)@.counter == old(self)@.counter,
            final(self)@.ifaces == (if r {
                old(self)@.ifaces.remove(iface_at(old(self)@.ifaces, *address, 0))
            } else {
                old(self)@.ifaces
            }),
            final(self)@.controls == (if r {
                old(self)@.controls.remove(*address)
            } else {
                old(self)@.controls
            }),
    {
        let at: usize = self.find(address);
        if at < self.ifaces.len() {
            let _ = self.ifaces.remove(at);
            assert(self@.ifaces =~= old(self)@.ifaces.remove(at as int));
            let _ = self.controls.remove(address);
            assert(self@.controls =~= old(self)@.controls.remove(*address));
            true
        } else {
            false
        }
    }

    /// Drops the interfaces whose workers have ended. Their control states stay.
    pub fn cleanup(&mut self)
        requires
            old(self).wf(),
        ensures
            final(self).wf(),
            final(self)@ == (ManagerView {
                ifaces: live(old(self)@.ifaces, old(self)@.ifaces.len() as int),
                ..old(self)@
            }),
    {
        let ghost before = self@.ifaces;
        let ghost mut seen: int = 0;
        let mut i: usize = 0;
        assert(self@.ifaces =~= live(before, 0) + before.skip(0));
        while i < self.ifaces.len()
            invariant
                0 <= seen <= before.len(),
                i == live(before, seen).len(),
                self.wf(),
                self@ == (ManagerView {
                    ifaces: live(before, seen) + before.skip(seen),
                    ..old(self)@
                }),
            decreases before.len() - seen,
        {
            let ghost head = live(before, seen);
            let ghost current = self@.ifaces;
            proof {
                assert(current.len() == head.len() + before.len() - seen);
                assert(current[i as int] == before[seen]);
                assert(current[i as int] == self.ifaces@[i as int]@);
            }
            if self.ifaces[i].stopped {
                let _ = self.ifaces.remove(i);
                assert(self@.ifaces =~= current.remove(i as int));
                assert(self@.ifaces =~= head + before.skip(seen + 1));
            } else {
                i += 1;
                assert(self@.ifaces =~= head.push(before[seen]) + before.skip(seen + 1));
            }
            proof {
                seen = seen + 1;
            }
        }
        assert(self@.ifaces.len() == live(before, seen).len() + before.len() - seen);
        assert(self@.ifaces =~= live(before, before.len() as int));
    }

    /// The control state of an interface.
    pub fn control(&self, address: &AddressHash) -> (r: Option<&IfaceControlState>)
        requires
            self.wf(),
        ensures
            r is Some <==> self@.controls.dom().contains(*address),
            r is Some ==> r->0@ == self@.controls[*address] && r->0.wf(),
    {
        self.controls.get(address)
    }

    /// The control state of an interface, for changing it. What is left behind has to be
    /// well-formed again for the manager to be.
    pub fn control_mut(&mut self, address: &AddressHash) -> (r: Option<&mut IfaceControlState>)
        requires
            old(self).wf(),
        ensures
            r is Some <==> old(self)@.controls.dom().contains(*address),
            match r {
                Some(control) => {
                    &&& control@ == old(self)@.controls[*address]
                    &&& control.wf()
                    &&& final(self)@ == with_control(old(self)@, *address, final(control)@)
                    &&& final(control).wf() ==> final(self).wf()
                },
                None => *final(self) == *old(self),
            },
    {
        let ghost before = self.controls@;
        proof {
            assert forall|value: IfaceControlState|
                #![trigger before.insert(*address, value)]
                control_views(before.insert(*address, value)) == control_views(before).insert(
                    *address,
                    value@,
                ) by {
                assert(control_views(before.insert(*address, value)) =~= control_views(
                    before,
                ).insert(*address, value@));
            }
        }
        self.controls.get_mut(address)
    }

    /// Sets the mode of an interface. Returns whether it is known.
    pub fn set_iface_mode(&mut self, address: &AddressHash, mode: InterfaceMode) -> (r: bool)
        requires
            old(self).wf(),
        ensures
            final(self).wf(),
            r == old(self)@.controls.dom().contains(*address),
            final(self)@ == (if r {
                with_control(
                    old(self)@,
                    *address,
                    (ControlView { mode, ..old(self)@.controls[*address] }),
                )
            } else {
                old(self)@
            }),
    {
        match self.controls.get_mut(address) {
            Some(control) => {
                control.mode = mode;
                assert(self@ =~= with_control(
                    old(self)@,
                    *address,
                    (ControlView { mode, ..old(self)@.controls[*address] }),
                ));
                true
            },
            None => false,
        }
    }

    /// Sets the nominal bits per second of an interface. Returns whether it is known.
    pub fn set_iface_bitrate(&mut self, address: &AddressHash, bitrate: u64) -> (r: bool)
        requires
            old(self).wf(),
        ensures
            final(self).wf(),
            r == old(self)@.controls.dom().contains(*address),
            final(self)@ == (if r {
                with_control(
                    old(self)@,
                    *address,
                    (ControlView { bitrate, ..old(self)@.controls[*address] }),
                )
            } else {
                old(self)@
            }),
    {
        match self.controls.get_mut(address) {
            Some(control) => {
                control.bitrate = bitrate;
                assert(self@ =~= with_control(
                    old(self)@,
                    *address,
                    (ControlView { bitrate, ..old(self)@.controls[*address] }),
                ));
                true
            },
            None => false,
        }
    }

    /// Marks an interface to a local client of a shared instance. Returns whether it is known.
    pub fn set_iface_local_client(&mut self, address: &AddressHash) -> (r: bool)
        requires
            old(self).wf(),
        ensures
            final(self).wf(),
            r == old(self)@.controls.dom().contains(*address),
            final(self)@ == (if r {
                with_control(
                    old(self)@,
                    *address,
                    (ControlView { is_local_client: true, ..old(self)@.controls[*address] }),
                )
            } else {
                old(self)@
            }),
    {
        match self.controls.get_mut(address) {
            Some(control) => {
                control.is_local_client = true;
                assert(self@ =~= with_control(
                    old(self)@,
                    *address,
                    (ControlView { is_local_client: true, ..old(self)@.controls[*address] }),
                ));
                true
            },
            None => false,
        }
    }

    /// Binds an interface to a tunnel. Returns whether it is known.
    pub fn set_iface_tunnel(&mut self, address: &AddressHash, tunnel_id: Option<AddressHash>) -> (r: bool)
        requires
            old(self).wf(),
        ensures
            final(self).wf(),
            r == old(self)@.controls.dom().contains(*address),
            final(self)@ == (if r {
                with_control(
                    old(self)@,
                    *address,
                    (ControlView { tunnel_id, ..old(self)@.controls[*address] }),
                )
            } else {
                old(self)@
            }),
    {
        match self.controls.get_mut(address) {
            Some(control) => {
                control.tunnel_id = tunnel_id;
                assert(self@ =~= with_control(
                    old(self)@,
                    *address,
                    (ControlView { tunnel_id, ..old(self)@.controls[*address] }),
                ));
                true
            },
            None => false,
        }
    }

    /// Sets whether a tunnel is to be set up over an interface. Returns whether it is known.
    pub fn set_iface_wants_tunnel(&mut self, address: &AddressHash, wants: bool) -> (r: bool)
        requires
            old(self).wf(),
        ensures
            final(self).wf(),
            r == old(self)@.controls.dom().contains(*address),
            final(self)@ == (if r {
                with_control(
                    old(self)@,
                    *address,
                    (ControlView { wants_tunnel: wants, ..old(self)@.controls[*address] }),
                )
            } else {
                old(self)@
            }),
    {
        match self.controls.get_mut(address) {
            Some(control) => {
                control.wants_tunnel = wants;
                assert(self@ =~= with_control(
                    old(self)@,
                    *address,
                    (ControlView { wants_tunnel: wants, ..old(self)@.controls[*address] }),
                ));
                true
            },
            None => false,
        }
    }

    /// Sets the access key of an interface. Returns whether it is registered.
    pub fn set_iface_ifac(
        &mut self,
        address: &AddressHash,
        netname: Option<&str>,
        netkey: Option<&str>,
        size: usize,
    ) -> (r: Result<bool, RnsError>)
        requires
            old(self).wf(),
        ensures
            final(self).wf(),
            r == Ok::<bool, RnsError>(has_iface(old(self)@, *address)),
            final(self)@.controls == old(self)@.controls,
            final(self)@.counter == old(self)@.counter,
            final(self)@.order == old(self)@.order,
            ({
                let at = iface_at(old(self)@.ifaces, *address, 0);
                if at < old(self)@.ifaces.len() {
                    exists|key: IfacKey|
                        {
                            &&& #[trigger] key.key() == ifac::access_key(netname, netkey)
                            &&& key.size == (if size < ifac::IFAC_MIN_SIZE {
                                ifac::IFAC_MIN_SIZE
                            } else {
                                size
                            })
                            &&& final(self)@.ifaces == old(self)@.ifaces.update(
                                at,
                                EntryView { ifac: Some(key), ..old(self)@.ifaces[at] },
                            )
                        }
                } else {
                    final(self)@.ifaces == old(self)@.ifaces
                }
            }),
    {
        let at: usize = self.find(address);
        if at < self.ifaces.len() {
            let key: IfacKey = IfacKey::derive(netname, netkey, size);
            let ghost derived = key;
            self.ifaces[at].ifac = Some(key);
            assert(self@.ifaces =~= old(self)@.ifaces.update(
                at as int,
                EntryView { ifac: Some(derived), ..old(self)@.ifaces[at as int] },
            ));
            assert(derived.key() == ifac::access_key(netname, netkey));
            Ok(true)
        } else {
            Ok(false)
        }
    }

    /// The interfaces over which a tunnel is to be set up.
    pub fn interfaces_wanting_tunnel(&self) -> (r: Vec<AddressHash>)
        requires
            self.wf(),
        ensures
            r@ == controlled(
                self@,
                |c: ControlView| c.wants_tunnel,
                self@.ifaces.len() as int,
            ),
    {
        let mut r: Vec<AddressHash> = Vec::new();
        let mut i: usize = 0;
        while i < self.ifaces.len()
            invariant
                self.wf(),
                i <= self.ifaces@.len(),
                r@ == controlled(self@, |c: ControlView| c.wants_tunnel, i as int),
            decreases self.ifaces@.len() - i,
        {
            assert(self@.ifaces[i as int] == self.ifaces@[i as int]@);
            if !self.ifaces[i].stopped {
                if let Some(control) = self.control(&self.ifaces[i].address) {
                    if control.wants_tunnel {
                        r.push(self.ifaces[i].address);
                    }
                }
            }
            i += 1;
        }
        r
    }

    /// The interfaces to local clients of a shared instance.
    pub fn local_client_iface_addresses(&self) -> (r: Vec<AddressHash>)
        requires
            self.wf(),
        ensures
            r@ == controlled(
                self@,
                |c: ControlView| c.is_local_client,
                self@.ifaces.len() as int,
            ),
    {
        let mut r: Vec<AddressHash> = Vec::new();
        let mut i: usize = 0;
        while i < self.ifaces.len()
            invariant
                self.wf(),
                i <= self.ifaces@.len(),
                r@ == controlled(self@, |c: ControlView| c.is_local_client, i as int),
            decreases self.ifaces@.len() - i,
        {
            assert(self@.ifaces[i as int] == self.ifaces@[i as int]@);
            if !self.ifaces[i].stopped {
                if let Some(control) = self.control(&self.ifaces[i].address) {
                    if control.is_local_client {
                        r.push(self.ifaces[i].address);
                    }
                }
            }
            i += 1;
        }
        r
    }

    /// The tunnel that an interface is bound to.
    pub fn iface_tunnel(&self, address: &AddressHash) -> (r: Option<AddressHash>)
        requires
            self.wf(),
        ensures
            r == (if self@.controls.dom().contains(*address) {
                self@.controls[*address].tunnel_id
            } else {
                None
            }),
    {
        match self.control(address) {
            Some(control) => control.tunnel_id,
            None => None,
        }
    }

    /// Whether an interface is one to a local client of a shared instance.
    pub fn is_local_client_iface(&self, address: &AddressHash) -> (r: bool)
        requires
            self.wf(),
        ensures
            r == (self@.controls.dom().contains(*address)
                && self@.controls[*address].is_local_client),
    {
        match self.control(address) {
            Some(control) => control.is_local_client,
            None => false,
        }
    }

    /// The mode of an interface.
    pub fn iface_mode(&self, address: &AddressHash) -> (r: InterfaceMode)
        requires
            self.wf(),
        ensures
            r == mode_of(self@, *address),
    {
        match self.control(address) {
            Some(control) => control.mode,
            None => InterfaceMode::Full,
        }
    }

    /// An announce of so many bytes came in on an interface.
    pub fn received_announce(&mut self, address: &AddressHash, bytes: usize, now: u64)
        requires
            old(self).wf(),
        ensures
            final(self).wf(),
            final(self)@ == with_stats(
                with_sample_ia(old(self)@, *address, now),
                *address,
                |s: InterfaceCounters| InterfaceCounters {
                    announces_received: s.announces_received.wrapping_add(1),
                    announce_bytes_received: s.announce_bytes_received.wrapping_add(bytes as u64),
                    ..s
                },
            ),
    {
        if let Some(control) = self.controls.get_mut(address) {
            control.received_announce(now);
        }
        assert(self@ =~= with_sample_ia(old(self)@, *address, now));
        let ghost sampled = self@;
        let at: usize = self.find(address);
        if at < self.ifaces.len() {
            self.ifaces[at].stats.count_announce_rx(bytes);
            assert(self@.ifaces =~= sampled.ifaces.update(
                at as int,
                (EntryView { stats: self.ifaces@[at as int].stats, ..sampled.ifaces[at as int] }),
            ));
        }
    }

    /// An announce of so many bytes went out on an interface.
    pub fn sent_announce(&mut self, address: &AddressHash, bytes: usize, now: u64)
        requires
            old(self).wf(),
        ensures
            final(self).wf(),
            final(self)@ == with_stats(
                with_sample_oa(old(self)@, *address, now),
                *address,
                |s: InterfaceCounters| InterfaceCounters {
                    announces_sent: s.announces_sent.wrapping_add(1),
                    announce_bytes_sent: s.announce_bytes_sent.wrapping_add(bytes as u64),
                    ..s
                },
            ),
    {
        if let Some(control) = self.controls.get_mut(address) {
            control.sent_announce(now);
        }
        assert(self@ =~= with_sample_oa(old(self)@, *address, now));
        let ghost sampled = self@;
        let at: usize = self.find(address);
        if at < self.ifaces.len() {
            self.ifaces[at].stats.count_announce_tx(bytes);
            assert(self@.ifaces =~= sampled.ifaces.update(
                at as int,
                (EntryView { stats: self.ifaces@[at as int].stats, ..sampled.ifaces[at as int] }),
            ));
        }
    }

    /// A path request came in on an interface.
    pub fn received_path_request(&mut self, address: &AddressHash, bytes: usize, now: u64)
        requires
            old(self).wf(),
        ensures
            final(self).wf(),
            final(self)@ == with_stats(
                with_sample_ip(old(self)@, *address, now),
                *address,
                |s: InterfaceCounters| InterfaceCounters {
                    path_requests_received: s.path_requests_received.wrapping_add(1),
                    ..s
                },
            ),
    {
        if let Some(control) = self.controls.get_mut(address) {
            control.received_path_request(now);
        }
        assert(self@ =~= with_sample_ip(old(self)@, *address, now));
        let ghost sampled = self@;
        let at: usize = self.find(address);
        if at < self.ifaces.len() {
            self.ifaces[at].stats.count_path_request_rx(bytes);
            assert(self@.ifaces =~= sampled.ifaces.update(
                at as int,
                (EntryView { stats: self.ifaces@[at as int].stats, ..sampled.ifaces[at as int] }),
            ));
        }
    }

    /// A path request went out on an interface.
    pub fn sent_path_request(&mut self, address: &AddressHash, bytes: usize, now: u64)
        requires
            old(self).wf(),
        ensures
            final(self).wf(),
            final(self)@ == with_stats(
                with_sample_op(old(self)@, *address, now),
                *address,
                |s: InterfaceCounters| InterfaceCounters {
                    path_requests_sent: s.path_requests_sent.wrapping_add(1),
                    ..s
                },
            ),
    {
        if let Some(control) = self.controls.get_mut(address) {
            control.sent_path_request(now);
        }
        assert(self@ =~= with_sample_op(old(self)@, *address, now));
        let ghost sampled = self@;
        let at: usize = self.find(address);
        if at < self.ifaces.len() {
            self.ifaces[at].stats.count_path_request_tx(bytes);
            assert(self@.ifaces =~= sampled.ifaces.update(
                at as int,
                (EntryView { stats: self.ifaces@[at as int].stats, ..sampled.ifaces[at as int] }),
            ));
        }
    }

    /// A packet on an interface was filtered out.
    pub fn count_packet_filter_hit(&mut self, address: &AddressHash)
        requires
            old(self).wf(),
        ensures
            final(self).wf(),
            final(self)@ == with_stats(
                old(self)@,
                *address,
                |s: InterfaceCounters| InterfaceCounters {
                    packet_filter_hits: s.packet_filter_hits.wrapping_add(1),
                    ..s
                },
            ),
    {
        let at: usize = self.find(address);
        if at < self.ifaces.len() {
            self.ifaces[at].stats.count_packet_filter_hit();
            assert(self@.ifaces =~= old(self)@.ifaces.update(
                at as int,
                (EntryView {
                    stats: self.ifaces@[at as int].stats,
                    ..old(self)@.ifaces[at as int]
                }),
            ));
        }
    }

    /// The protocol was violated on an interface.
    pub fn count_protocol_violation(&mut self, address: &AddressHash)
        requires
            old(self).wf(),
        ensures
            final(self).wf(),
            final(self)@ == with_stats(
                old(self)@,
                *address,
                |s: InterfaceCounters| InterfaceCounters {
                    protocol_violations: s.protocol_violations.wrapping_add(1),
                    ..s
                },
            ),
    {
        let at: usize = self.find(address);
        if at < self.ifaces.len() {
            self.ifaces[at].stats.count_protocol_violation();
            assert(self@.ifaces =~= old(self)@.ifaces.update(
                at as int,
                (EntryView {
                    stats: self.ifaces@[at as int].stats,
                    ..old(self)@.ifaces[at as int]
                }),
            ));
        }
    }

    /// An access code on an interface was wrong.
    pub fn count_ifac_violation(&mut self, address: &AddressHash)
        requires
            old(self).wf(),
        ensures
            final(self).wf(),
            final(self)@ == with_stats(
                old(self)@,
                *address,
                |s: InterfaceCounters| InterfaceCounters {
                    ifac_violations: s.ifac_violations.wrapping_add(1),
                    ..s
                },
            ),
    {
        let at: usize = self.find(address);
        if at < self.ifaces.len() {
            self.ifaces[at].stats.count_ifac_violation();
            assert(self@.ifaces =~= old(self)@.ifaces.update(
                at as int,
                (EntryView {
                    stats: self.ifaces@[at as int].stats,
                    ..old(self)@.ifaces[at as int]
                }),
            ));
        }
    }
}

/// What registering an interface does.
pub open spec fn is_registered(
    before: ManagerView,
    after: ManagerView,
    address: AddressHash,
    name: Seq<char>,
    kind: Seq<char>,
    now: u64,
) -> bool {
    &&& after.counter == before.counter + 1
    &&& after.ifaces == before.ifaces.push(
        EntryView {
            address,
            name,
            kind,
            stopped: false,
            stats: counters::new_counters(),
            ifac: None,
        },
    )
    &&& after.controls == before.controls.insert(address, control_state::new_control(now))
}

} // verus!
