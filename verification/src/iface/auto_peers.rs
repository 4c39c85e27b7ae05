//! The peers that discovery has found, and the packets that come from them.

use std::collections::VecDeque;

use vstd::prelude::*;
use vstd::string::*;

use crate::bytes;
use crate::hash;
use crate::iface::auto::{
    mcast_discovery_address, verify_discovery_token, DiscoveryScope, MulticastAddressType,
    DEFAULT_DATA_PORT, DEFAULT_DISCOVERY_PORT, DEFAULT_GROUP_ID, HW_MTU, MULTI_IF_DEQUE_LEN,
    MULTI_IF_DEQUE_TTL, PEERING_TIMEOUT, REVERSE_PEERING_INTERVAL,
};
use crate::iface::Interface;
use crate::text;

verus! {

/// What has been received lately.
#[derive(Debug)]
pub struct MultiIfDeque {
    entries: VecDeque<(crate::hash::Hash, u64)>,
}

/// Remembered packets, as mathematical values: hashes, and when they came.
pub open spec fn memory_views(entries: Seq<(crate::hash::Hash, u64)>) -> Seq<(Seq<u8>, u64)> {
    entries.map_values(|e: (crate::hash::Hash, u64)| (e.0@, e.1))
}

impl View for MultiIfDeque {
    type V = Seq<(Seq<u8>, u64)>;

    closed spec fn view(&self) -> Seq<(Seq<u8>, u64)> {
        memory_views(self.entries@)
    }
}

/// Whether a packet with this hash came in lately.
pub open spec fn is_remembered(memory: Seq<(Seq<u8>, u64)>, digest: Seq<u8>, now: u64) -> bool {
    exists|i: int|
        0 <= i < memory.len() && (#[trigger] memory[i]).0 == digest && now < memory[i].1
            + MULTI_IF_DEQUE_TTL
}

/// The last remembered packets.
pub open spec fn newest(memory: Seq<(Seq<u8>, u64)>) -> Seq<(Seq<u8>, u64)> {
    if memory.len() > MULTI_IF_DEQUE_LEN {
        memory.skip(memory.len() - MULTI_IF_DEQUE_LEN)
    } else {
        memory
    }
}

/// What is remembered after a packet, and whether it was new.
pub open spec fn after_packet(memory: Seq<(Seq<u8>, u64)>, data: Seq<u8>, now: u64) -> (
    Seq<(Seq<u8>, u64)>,
    bool,
) {
    let digest = hash::sha256_digest(data);
    if is_remembered(memory, digest, now) {
        (memory, false)
    } else {
        (newest(memory.push((digest, now))), true)
    }
}

impl Default for MultiIfDeque {
    fn default() -> (r: Self)
        ensures
            r@ == Seq::<(Seq<u8>, u64)>::empty(),
    {
        let r: MultiIfDeque = MultiIfDeque { entries: VecDeque::new() };
        assert(r@ =~= Seq::<(Seq<u8>, u64)>::empty());
        r
    }
}

impl MultiIfDeque {
    /// Whether a packet is new; it is remembered then. A packet that comes in over several
    /// interfaces is new once.
    pub fn check(&mut self, data: &[u8], now: u64) -> (r: bool)
        ensures
            (final(self)@, r) == after_packet(old(self)@, data@, now),
    {
        let hash: crate::hash::Hash = crate::hash::Hash::new_from_slice(data);
        let ghost memory = self@;
        let mut i: usize = 0;
        while i < self.entries.len()
            invariant
                i <= self.entries@.len(),
                memory == self@,
                *self == *old(self),
                hash@ == hash::sha256_digest(data@),
                forall|j: int|
                    0 <= j < i ==> !((#[trigger] memory[j]).0 == hash@ && now < memory[j].1
                        + MULTI_IF_DEQUE_TTL),
            decreases self.entries@.len() - i,
        {
            assert(memory[i as int] == (self.entries@[i as int].0@, self.entries@[i as int].1));
            let recent: bool = (now as u128) < self.entries[i].1 as u128
                + MULTI_IF_DEQUE_TTL as u128;
            if recent && bytes::equal(self.entries[i].0.as_slice(), hash.as_slice()) {
                assert(is_remembered(memory, hash@, now));
                return false;
            }
            i += 1;
        }
        assert(!is_remembered(memory, hash@, now));
        self.entries.push_back((hash, now));
        assert(self@ =~= memory.push((hash@, now)));
        let ghost pushed = self@;
        let ghost mut dropped: int = 0;
        assert(self@ =~= pushed.skip(0));
        while self.entries.len() > MULTI_IF_DEQUE_LEN
            invariant
                0 <= dropped <= pushed.len(),
                self@ == pushed.skip(dropped),
                dropped > 0 ==> self.entries@.len() >= MULTI_IF_DEQUE_LEN,
            decreases self.entries@.len(),
        {
            let ghost before = self@;
            let _ = self.entries.pop_front();
            assert(self@ =~= before.skip(1));
            assert(before.skip(1) =~= pushed.skip(dropped + 1));
            proof {
                dropped = dropped + 1;
            }
        }
        assert(self@.len() == pushed.len() - dropped);
        assert(self@ =~= newest(pushed));
        true
    }
}

/// A packet that was taken for new is a duplicate as long as it is remembered: right after it, the
/// same packet is not new.
pub proof fn duplicates_are_suppressed(
    memory: Seq<(Seq<u8>, u64)>,
    data: Seq<u8>,
    now: u64,
    soon: u64,
)
    requires
        now <= soon < now + MULTI_IF_DEQUE_TTL,
        after_packet(memory, data, now).1,
    ensures
        !after_packet(after_packet(memory, data, now).0, data, soon).1,
        after_packet(memory, data, now).0.len() <= MULTI_IF_DEQUE_LEN,
{
    let pushed = memory.push((hash::sha256_digest(data), now));
    let next = newest(pushed);
    assert(next[next.len() - 1] == pushed[pushed.len() - 1]);
    assert(is_remembered(next, hash::sha256_digest(data), soon));
}

/// Configuration of discovery.
pub struct AutoInterfaceConfig {
    pub group_id: String,
    pub discovery_port: u16,
    pub data_port: u16,
    pub discovery_scope: DiscoveryScope,
    pub multicast_address_type: MulticastAddressType,
    /// The network interfaces to use; all where none are given.
    pub devices: Vec<String>,
    /// The network interfaces not to use.
    pub ignored_devices: Vec<String>,
    /// The only address to use, where one is given.
    pub adopt: Option<[u8; 16]>,
}

impl Default for AutoInterfaceConfig {
    fn default() -> (r: Self)
        ensures
            r.group_id@ == DEFAULT_GROUP_ID@,
            r.discovery_port == DEFAULT_DISCOVERY_PORT,
            r.data_port == DEFAULT_DATA_PORT,
            r.discovery_scope == DiscoveryScope::Link,
            r.multicast_address_type == MulticastAddressType::Temporary,
            r.devices@.len() == 0,
            r.ignored_devices@.len() == 0,
            r.adopt is None,
    {
        AutoInterfaceConfig::new(DEFAULT_GROUP_ID)
    }
}

impl AutoInterfaceConfig {
    /// The configuration for a discovery group.
    pub fn new(group_id: &str) -> (r: Self)
        ensures
            r.group_id@ == group_id@,
            r.discovery_port == DEFAULT_DISCOVERY_PORT,
            r.data_port == DEFAULT_DATA_PORT,
            r.discovery_scope == DiscoveryScope::Link,
            r.multicast_address_type == MulticastAddressType::Temporary,
            r.devices@.len() == 0,
            r.ignored_devices@.len() == 0,
            r.adopt is None,
    {
        AutoInterfaceConfig {
            group_id: group_id.to_owned(),
            discovery_port: DEFAULT_DISCOVERY_PORT,
            data_port: DEFAULT_DATA_PORT,
            discovery_scope: DiscoveryScope::Link,
            multicast_address_type: MulticastAddressType::Temporary,
            devices: Vec::new(),
            ignored_devices: Vec::new(),
            adopt: None,
        }
    }

    /// The multicast address of the group.
    pub fn discovery_address(&self) -> (r: String)
        ensures
            r@ == crate::iface::auto::group_address(
                vstd::utf8::encode_utf8(self.group_id@),
                self.discovery_scope,
                self.multicast_address_type,
            ),
    {
        mcast_discovery_address(
            self.group_id.as_str(),
            self.discovery_scope,
            self.multicast_address_type,
        )
    }

    /// The port of beacons that are sent to one peer directly.
    pub fn unicast_discovery_port(&self) -> (r: u16)
        requires
            self.discovery_port < 65535,
        ensures
            r == self.discovery_port + 1,
    {
        self.discovery_port + 1
    }
}

/// A peer that discovery has found.
#[derive(Debug)]
pub struct AutoPeerEntry {
    pub addr: [u8; 16],
    /// The network interface that it was found on.
    pub ifname: String,
    /// When it last gave a sign of life, and when it was last sent a beacon.
    pub last_heard: u64,
    pub last_outbound: u64,
}

/// A peer, as a mathematical value.
#[verifier::ext_equal]
pub struct PeerView {
    pub addr: Seq<u8>,
    pub ifname: Seq<char>,
    pub last_heard: u64,
    pub last_outbound: u64,
}

impl View for AutoPeerEntry {
    type V = PeerView;

    open spec fn view(&self) -> PeerView {
        PeerView {
            addr: self.addr@,
            ifname: self.ifname@,
            last_heard: self.last_heard,
            last_outbound: self.last_outbound,
        }
    }
}

/// What a beacon calls for.
#[derive(Debug, Clone, Copy, PartialEq, Eq, Structural)]
pub enum BeaconAction {
    /// It was not made for the address that it came from.
    Forged,
    /// It is one of this node's own.
    Echo,
    /// It came from a known peer.
    Refreshed,
    /// It came from a new peer, to which an interface is to be opened.
    Added,
    /// It came in on a network interface that nothing can be sent on.
    Unreachable,
}

/// The state of discovery.
#[verifier::ext_equal]
pub struct PeersView {
    pub group_id: Seq<char>,
    /// The addresses of this node.
    pub own: Seq<Seq<u8>>,
    /// The network interfaces that can be sent on.
    pub names: Seq<Seq<char>>,
    pub peers: Seq<PeerView>,
    pub memory: Seq<(Seq<u8>, u64)>,
}

/// The peers that discovery has found.
pub struct AutoPeers {
    group_id: String,
    own: Vec<[u8; 16]>,
    names: Vec<String>,
    peers: Vec<AutoPeerEntry>,
    memory: MultiIfDeque,
}

/// Peers as mathematical values.
pub open spec fn peer_views(peers: Seq<AutoPeerEntry>) -> Seq<PeerView> {
    peers.map_values(|p: AutoPeerEntry| p@)
}

/// Addresses as mathematical values.
pub open spec fn address_views(addresses: Seq<[u8; 16]>) -> Seq<Seq<u8>> {
    addresses.map_values(|a: [u8; 16]| a@)
}

impl View for AutoPeers {
    type V = PeersView;

    closed spec fn view(&self) -> PeersView {
        PeersView {
            group_id: self.group_id@,
            own: address_views(self.own@),
            names: crate::iface::auto::name_views(self.names@),
            peers: peer_views(self.peers@),
            memory: self.memory@,
        }
    }
}

/// Where a peer is, or the number of peers.
pub open spec fn peer_at(peers: Seq<PeerView>, addr: Seq<u8>, from: int) -> int
    decreases peers.len() - from,
{
    if from < 0 || from >= peers.len() {
        peers.len() as int
    } else if peers[from].addr == addr {
        from
    } else {
        peer_at(peers, addr, from + 1)
    }
}

/// The peers after a sign of life of one of them.
pub open spec fn heard(peers: Seq<PeerView>, at: int, now: u64) -> Seq<PeerView> {
    peers.update(at, PeerView { last_heard: now, ..peers[at] })
}

/// What a beacon calls for, and the state after it.
pub open spec fn after_beacon(
    s: PeersView,
    data: Seq<u8>,
    src: Seq<char>,
    addr: Seq<u8>,
    ifname: Seq<char>,
    now: u64,
) -> (PeersView, BeaconAction) {
    let at = peer_at(s.peers, addr, 0);
    if !crate::iface::auto::is_token(
        vstd::utf8::encode_utf8(s.group_id),
        vstd::utf8::encode_utf8(src),
        data,
    ) {
        (s, BeaconAction::Forged)
    } else if s.own.contains(addr) {
        (s, BeaconAction::Echo)
    } else if at < s.peers.len() {
        (PeersView { peers: heard(s.peers, at, now), ..s }, BeaconAction::Refreshed)
    } else if !s.names.contains(ifname) {
        (s, BeaconAction::Unreachable)
    } else {
        (
            PeersView {
                peers: s.peers.push(
                    PeerView { addr, ifname, last_heard: now, last_outbound: now },
                ),
                ..s
            },
            BeaconAction::Added,
        )
    }
}

/// Whether a packet from an address is delivered, and the state after it.
pub open spec fn after_data(s: PeersView, data: Seq<u8>, addr: Seq<u8>, now: u64) -> (
    PeersView,
    bool,
) {
    let at = peer_at(s.peers, addr, 0);
    if at < s.peers.len() {
        let (memory, is_new) = after_packet(s.memory, data, now);
        if is_new {
            (PeersView { peers: heard(s.peers, at, now), memory, ..s }, true)
        } else {
            (PeersView { memory, ..s }, false)
        }
    } else {
        (s, false)
    }
}

/// Whether a peer has not given a sign of life for too long.
pub open spec fn timed_out(p: PeerView, now: u64) -> bool {
    now > p.last_heard + PEERING_TIMEOUT
}

/// Whether a peer is to be sent a beacon.
pub open spec fn beacon_due(p: PeerView, now: u64) -> bool {
    now > p.last_outbound + REVERSE_PEERING_INTERVAL
}

/// The first `n` peers without those that timed out, with the time of their beacons noted.
pub open spec fn kept(peers: Seq<PeerView>, now: u64, n: int) -> Seq<PeerView>
    decreases n,
{
    if n <= 0 {
        Seq::empty()
    } else {
        let p = peers[n - 1];
        if timed_out(p, now) {
            kept(peers, now, n - 1)
        } else if beacon_due(p, now) {
            kept(peers, now, n - 1).push(PeerView { last_outbound: now, ..p })
        } else {
            kept(peers, now, n - 1).push(p)
        }
    }
}

/// The addresses of the first `n` peers that timed out.
pub open spec fn dropped(peers: Seq<PeerView>, now: u64, n: int) -> Seq<Seq<u8>>
    decreases n,
{
    if n <= 0 {
        Seq::empty()
    } else if timed_out(peers[n - 1], now) {
        dropped(peers, now, n - 1).push(peers[n - 1].addr)
    } else {
        dropped(peers, now, n - 1)
    }
}

/// The addresses of the first `n` peers that are to be sent a beacon.
pub open spec fn beaconed(peers: Seq<PeerView>, now: u64, n: int) -> Seq<Seq<u8>>
    decreases n,
{
    if n <= 0 {
        Seq::empty()
    } else if !timed_out(peers[n - 1], now) && beacon_due(peers[n - 1], now) {
        beaconed(peers, now, n - 1).push(peers[n - 1].addr)
    } else {
        beaconed(peers, now, n - 1)
    }
}

impl AutoPeers {
    /// No peers yet. Given are the group, the addresses of this node and the network interfaces
    /// that can be sent on.
    pub fn new(group_id: &str, own: Vec<[u8; 16]>, names: Vec<String>) -> (r: Self)
        ensures
            r@ == (PeersView {
                group_id: group_id@,
                own: address_views(own@),
                names: crate::iface::auto::name_views(names@),
                peers: Seq::empty(),
                memory: Seq::empty(),
            }),
    {
        let r: AutoPeers = AutoPeers {
            group_id: group_id.to_owned(),
            own,
            names,
            peers: Vec::new(),
            memory: MultiIfDeque::default(),
        };
        assert(r@.peers =~= Seq::<PeerView>::empty());
        r
    }

    /// Where a peer is, or the number of peers.
    fn find(&self, addr: &[u8; 16]) -> (r: usize)
        ensures
            r == peer_at(self@.peers, addr@, 0),
            r <= self.peers@.len(),
            self@.peers.len() == self.peers@.len(),
    {
        let mut i: usize = 0;
        while i < self.peers.len()
            invariant
                i <= self.peers@.len(),
                peer_at(self@.peers, addr@, 0) == peer_at(self@.peers, addr@, i as int),
            decreases self.peers@.len() - i,
        {
            assert(self@.peers[i as int] == self.peers@[i as int]@);
            if bytes::equal(&self.peers[i].addr, addr) {
                return i;
            }
            i += 1;
        }
        i
    }

    /// Whether an address is one of this node's own.
    fn is_own(&self, addr: &[u8; 16]) -> (r: bool)
        ensures
            r == self@.own.contains(addr@),
    {
        let mut i: usize = 0;
        let ghost own = self@.own;
        while i < self.own.len()
            invariant
                i <= self.own@.len(),
                own == address_views(self.own@),
                forall|j: int| 0 <= j < i ==> #[trigger] own[j] != addr@,
            decreases self.own@.len() - i,
        {
            assert(own[i as int] == self.own@[i as int]@);
            if bytes::equal(&self.own[i], addr) {
                return true;
            }
            i += 1;
        }
        assert forall|j: int| 0 <= j < own.len() implies own[j] != addr@ by {}
        false
    }

    /// Whether a network interface can be sent on.
    fn can_reach(&self, ifname: &str) -> (r: bool)
        ensures
            r == self@.names.contains(ifname@),
    {
        let mut i: usize = 0;
        let ghost names = self@.names;
        while i < self.names.len()
            invariant
                i <= self.names@.len(),
                names == crate::iface::auto::name_views(self.names@),
                forall|j: int| 0 <= j < i ==> #[trigger] names[j] != ifname@,
            decreases self.names@.len() - i,
        {
            assert(names[i as int] == self.names@[i as int]@);
            if text::same_text(self.names[i].as_str(), ifname) {
                return true;
            }
            i += 1;
        }
        assert forall|j: int| 0 <= j < names.len() implies names[j] != ifname@ by {}
        false
    }

    /// Notes a sign of life of a peer.
    fn hear(&mut self, at: usize, now: u64)
        requires
            at < old(self)@.peers.len(),
        ensures
            final(self)@ == (PeersView {
                peers: heard(old(self)@.peers, at as int, now),
                ..old(self)@
            }),
    {
        self.peers[at].last_heard = now;
        assert(self@.peers =~= heard(old(self)@.peers, at as int, now));
    }

    /// Takes in a beacon that came from an address, given as text and as bytes, on a network
    /// interface. Returns what it calls for.
    pub fn on_beacon(
        &mut self,
        data: &[u8],
        src: &str,
        addr: [u8; 16],
        ifname: &str,
        now: u64,
    ) -> (r: BeaconAction)
        ensures
            (final(self)@, r) == after_beacon(old(self)@, data@, src@, addr@, ifname@, now),
    {
        if !verify_discovery_token(self.group_id.as_str(), src, data) {
            return BeaconAction::Forged;
        }
        if self.is_own(&addr) {
            return BeaconAction::Echo;
        }
        let at: usize = self.find(&addr);
        if at < self.peers.len() {
            self.hear(at, now);
            return BeaconAction::Refreshed;
        }
        if !self.can_reach(ifname) {
            return BeaconAction::Unreachable;
        }
        let entry: AutoPeerEntry = AutoPeerEntry {
            addr,
            ifname: ifname.to_owned(),
            last_heard: now,
            last_outbound: now,
        };
        let ghost view = entry@;
        self.peers.push(entry);
        assert(self@.peers =~= old(self)@.peers.push(view));
        BeaconAction::Added
    }

    /// Takes in a packet that came from an address. Returns whether it is to be delivered to the
    /// interface of that peer.
    pub fn on_data(&mut self, data: &[u8], addr: [u8; 16], now: u64) -> (r: bool)
        ensures
            (final(self)@, r) == after_data(old(self)@, data@, addr@, now),
    {
        let at: usize = self.find(&addr);
        if at >= self.peers.len() {
            return false;
        }
        if self.memory.check(data, now) {
            self.hear(at, now);
            true
        } else {
            false
        }
    }

    /// Goes over the peers. Returns the addresses of those that timed out, and of those that are to
    /// be sent a beacon.
    pub fn on_tick(&mut self, now: u64) -> (r: (Vec<[u8; 16]>, Vec<[u8; 16]>))
        ensures
            final(self)@ == (PeersView {
                peers: kept(old(self)@.peers, now, old(self)@.peers.len() as int),
                ..old(self)@
            }),
            address_views(r.0@) == dropped(
                old(self)@.peers,
                now,
                old(self)@.peers.len() as int,
            ),
            address_views(r.1@) == beaconed(
                old(self)@.peers,
                now,
                old(self)@.peers.len() as int,
            ),
    {
        let mut gone: Vec<[u8; 16]> = Vec::new();
        let mut due: Vec<[u8; 16]> = Vec::new();
        let ghost before = self@.peers;
        let ghost mut seen: int = 0;
        let mut i: usize = 0;
        assert(address_views(gone@) =~= dropped(before, now, 0));
        assert(address_views(due@) =~= beaconed(before, now, 0));
        assert(self@.peers =~= kept(before, now, 0) + before.skip(0));
        while i < self.peers.len()
            invariant
                0 <= seen <= before.len(),
                i == kept(before, now, seen).len(),
                self@ == (PeersView {
                    peers: kept(before, now, seen) + before.skip(seen),
                    ..old(self)@
                }),
                address_views(gone@) == dropped(before, now, seen),
                address_views(due@) == beaconed(before, now, seen),
            decreases before.len() - seen,
        {
            let ghost head = kept(before, now, seen);
            let ghost current = self@.peers;
            let ghost lost = address_views(gone@);
            let ghost called = address_views(due@);
            proof {
                assert(current.len() == head.len() + before.len() - seen);
                assert(current[i as int] == before[seen]);
                assert(current[i as int] == self.peers@[i as int]@);
            }
            let heard_at: u128 = self.peers[i].last_heard as u128;
            let sent_at: u128 = self.peers[i].last_outbound as u128;
            if now as u128 > heard_at + PEERING_TIMEOUT as u128 {
                gone.push(self.peers[i].addr);
                let _ = self.peers.remove(i);
                assert(address_views(gone@) =~= lost.push(before[seen].addr));
                assert(self@.peers =~= current.remove(i as int));
                assert(self@.peers =~= head + before.skip(seen + 1));
            } else {
                if now as u128 > sent_at + REVERSE_PEERING_INTERVAL as u128 {
                    due.push(self.peers[i].addr);
                    self.peers[i].last_outbound = now;
                    assert(address_views(due@) =~= called.push(before[seen].addr));
                    assert(self@.peers =~= current.update(
                        i as int,
                        PeerView { last_outbound: now, ..before[seen] },
                    ));
                }
                i += 1;
                assert(self@.peers =~= kept(before, now, seen + 1) + before.skip(seen + 1));
            }
            proof {
                seen = seen + 1;
            }
        }
        assert(self@.peers.len() == kept(before, now, seen).len() + before.len() - seen);
        assert(self@.peers =~= kept(before, now, before.len() as int));
        (gone, due)
    }
}

/// No two peers have the same address.
pub open spec fn peers_unique(peers: Seq<PeerView>) -> bool {
    forall|i: int, j: int|
        0 <= i < j < peers.len() ==> (#[trigger] peers[i]).addr != (#[trigger] peers[j]).addr
}

proof fn peer_at_bounds(peers: Seq<PeerView>, addr: Seq<u8>, from: int)
    requires
        0 <= from <= peers.len(),
    ensures
        from <= peer_at(peers, addr, from) <= peers.len(),
        forall|i: int|
            from <= i < peer_at(peers, addr, from) ==> (#[trigger] peers[i]).addr != addr,
    decreases peers.len() - from,
{
    if from < peers.len() && peers[from].addr != addr {
        peer_at_bounds(peers, addr, from + 1);
    }
}

/// Each node is a peer at most once: beacons and packets keep that, and a beacon adds a peer only
/// where it is genuine, not this node's own, and new.
pub proof fn peers_stay_unique(
    s: PeersView,
    data: Seq<u8>,
    src: Seq<char>,
    addr: Seq<u8>,
    ifname: Seq<char>,
    now: u64,
)
    requires
        peers_unique(s.peers),
    ensures
        peers_unique(after_beacon(s, data, src, addr, ifname, now).0.peers),
        peers_unique(after_data(s, data, addr, now).0.peers),
        after_beacon(s, data, src, addr, ifname, now).1 == BeaconAction::Added ==> crate::iface::auto::is_token(
            vstd::utf8::encode_utf8(s.group_id),
            vstd::utf8::encode_utf8(src),
            data,
        ) && !s.own.contains(addr),
{
    peer_at_bounds(s.peers, addr, 0);
    let at = peer_at(s.peers, addr, 0);
    let refreshed = heard(s.peers, at, now);
    if at < s.peers.len() {
        assert forall|i: int, j: int| 0 <= i < j < refreshed.len() implies (
        #[trigger] refreshed[i]).addr != (#[trigger] refreshed[j]).addr by {
            assert(s.peers[i].addr != s.peers[j].addr);
        }
    } else {
        let next = s.peers.push(
            PeerView { addr, ifname, last_heard: now, last_outbound: now },
        );
        assert forall|i: int, j: int| 0 <= i < j < next.len() implies (#[trigger] next[i]).addr != (
        #[trigger] next[j]).addr by {
            if j < s.peers.len() {
                assert(s.peers[i].addr != s.peers[j].addr);
            } else {
                assert(s.peers[i].addr != addr);
            }
        }
    }
}

/// Nothing is delivered that does not come from a peer, and nothing twice while it is remembered.
pub proof fn only_peers_deliver(s: PeersView, data: Seq<u8>, addr: Seq<u8>, now: u64)
    requires
        after_data(s, data, addr, now).1,
    ensures
        peer_at(s.peers, addr, 0) < s.peers.len(),
        !is_remembered(s.memory, hash::sha256_digest(data), now),
        !after_data(after_data(s, data, addr, now).0, data, addr, now).1,
{
    duplicates_are_suppressed(s.memory, data, now, now);
}

/// An interface that finds its peers by itself.
pub struct AutoInterface {
    config: AutoInterfaceConfig,
}

impl AutoInterface {
    /// How discovery is configured.
    pub closed spec fn configuration(&self) -> AutoInterfaceConfig {
        self.config
    }

    /// An interface with a configuration.
    pub fn new(config: AutoInterfaceConfig) -> (r: Self)
        ensures
            r.configuration() == config,
    {
        AutoInterface { config }
    }

    /// The configuration.
    pub fn config(&self) -> (r: &AutoInterfaceConfig)
        ensures
            *r == self.configuration(),
    {
        &self.config
    }
}

impl Interface for AutoInterface {
    fn mtu() -> (r: usize)
        ensures
            r == HW_MTU,
    {
        HW_MTU
    }
}

impl Interface for AutoPeerEntry {
    fn mtu() -> (r: usize)
        ensures
            r == HW_MTU,
    {
        HW_MTU
    }
}

} // verus!
