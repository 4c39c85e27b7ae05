//! What holds of connections and peers: when connections are opened again, who gets in, whom
//! discovery finds and forgets, and in which order frames go out.

use vstd::prelude::*;

use crate::hash;
use crate::iface::auto_peers::{
    after_beacon, after_data, after_packet, beaconed, dropped, is_remembered, kept, peer_at,
    BeaconAction, PeerView, PeersView,
};
use crate::iface::backbone::{
    after_disconnect, blocked, entry_at, flaps_of, fresh, over_grace, FlapView, TableView,
};
use crate::iface::kiss;
use crate::iface::lifecycle::{
    after_open, after_reader_end, after_wait, after_write_failure, policy_of, started, Lifecycle,
    Medium, Stage, WriteFailure,
};
use crate::iface::local::{answer, auth_in, AuthView, SharedInstanceAccessConfig};
use crate::iface::stream::{
    considered, counts_packet, encoded_limit, frame_limit, ignored_len, StreamKind,
};
use crate::iface::transmit::{
    after_begin, after_wrote, beacon_due, held, padded, StageView, TxView, WriteView,
};

verus! {

/// A connection that could be opened is served in both directions; after one that could not the
/// interface waits as long as its policy says.
pub proof fn opened_connections_are_served(life: Lifecycle)
    requires
        life.stage == Stage::Opening,
    ensures
        after_open(life, true) == (Lifecycle {
            stage: Stage::Serving { reading: true, writing: true },
            ..life
        }),
        after_open(life, false) == (Lifecycle {
            stage: Stage::Waiting(life.policy.retry_wait),
            ..life
        }),
{
}

/// After a wait a connection is opened.
pub proof fn waiting_leads_to_opening(life: Lifecycle, wait: u64)
    requires
        life.stage == Stage::Waiting(wait),
    ensures
        after_wait(life) == (Lifecycle { stage: Stage::Opening, ..life }),
{
}

/// When the reader ends, a connection that ends with it is lost; another goes on writing, and is
/// lost when that is over too. A lost connection is opened again by an interface that can, after
/// the wait for it, and is the end of one that cannot.
pub proof fn ended_readers_end_connections(life: Lifecycle, reading: bool, writing: bool)
    requires
        life.stage == (Stage::Serving { reading, writing }),
    ensures
        ({
            let after = after_reader_end(life).stage;
            let over = life.policy.ends_with_reader || !writing;
            &&& !over ==> after == (Stage::Serving { reading: false, writing: true })
            &&& over && !life.policy.opens ==> after == Stage::Finished
            &&& over && life.policy.opens && life.policy.lost_wait == 0 ==> after == Stage::Opening
            &&& over && life.policy.opens && life.policy.lost_wait > 0 ==> after == Stage::Waiting(
                life.policy.lost_wait,
            )
            &&& after_reader_end(life).policy == life.policy
        }),
{
}

/// A write that fails is passed over, ends the writing or ends the connection, as the policy says.
pub proof fn failed_writes_follow_the_policy(life: Lifecycle, reading: bool, writing: bool)
    requires
        life.stage == (Stage::Serving { reading, writing }),
    ensures
        ({
            let after = after_write_failure(life).stage;
            let policy = life.policy;
            let over = policy.write_failure == WriteFailure::EndsConnection || (
            policy.write_failure == WriteFailure::EndsWriting && !reading);
            &&& policy.write_failure == WriteFailure::Ignored ==> after == life.stage
            &&& policy.write_failure == WriteFailure::EndsWriting && reading ==> after == (
            Stage::Serving { reading: true, writing: false })
            &&& over && !policy.opens ==> after == Stage::Finished
            &&& over && policy.opens && policy.lost_wait == 0 ==> after == Stage::Opening
            &&& over && policy.opens && policy.lost_wait > 0 ==> after == Stage::Waiting(
                policy.lost_wait,
            )
        }),
{
}

/// An interface that opens its connection starts with that; one that was given it starts by serving
/// it.
pub proof fn interfaces_start_with_their_connection(medium: Medium)
    ensures
        started(medium, true).stage == Stage::Opening,
        started(medium, false).stage == (Stage::Serving { reading: true, writing: true }),
        started(medium, true).policy.opens,
        !started(medium, false).policy.opens,
{
}

/// The policies of the media: how long is waited before a connection is opened again, and what ends
/// it.
pub proof fn media_have_their_policies(opens: bool, delay: u64)
    ensures
        policy_of(Medium::Serial, opens).retry_wait == 5_000_000_000,
        policy_of(Medium::Serial, opens).lost_wait == 5_000_000_000,
        policy_of(Medium::Controller, opens).retry_wait == 5_000_000_000,
        policy_of(Medium::Controller, opens).lost_wait == 5_000_000_000,
        policy_of(Medium::Process(delay), opens).retry_wait == delay,
        policy_of(Medium::Process(delay), opens).lost_wait == delay,
        policy_of(Medium::Backbone, opens).retry_wait == 15_000_000_000,
        policy_of(Medium::Backbone, opens).lost_wait == 15_000_000_000,
        policy_of(Medium::I2p, opens).retry_wait == 15_000_000_000,
        policy_of(Medium::I2p, opens).lost_wait == 15_000_000_000,
        policy_of(Medium::Shared, opens).retry_wait == 8_000_000_000,
        policy_of(Medium::Shared, opens).lost_wait == 0,
        policy_of(Medium::Radio, opens).retry_wait == 10_000_000_000,
        policy_of(Medium::Radio, opens).lost_wait == 10_000_000_000,
        policy_of(Medium::Serial, opens).ends_with_reader,
        policy_of(Medium::Controller, opens).ends_with_reader,
        policy_of(Medium::Process(delay), opens).ends_with_reader,
        !policy_of(Medium::Backbone, opens).ends_with_reader,
        !policy_of(Medium::I2p, opens).ends_with_reader,
        policy_of(Medium::Shared, opens).ends_with_reader,
        policy_of(Medium::Radio, opens).ends_with_reader,
        policy_of(Medium::Serial, opens).write_failure == WriteFailure::Ignored,
        policy_of(Medium::Controller, opens).write_failure == WriteFailure::Ignored,
        policy_of(Medium::Process(delay), opens).write_failure == WriteFailure::EndsConnection,
        policy_of(Medium::Backbone, opens).write_failure == WriteFailure::EndsWriting,
        policy_of(Medium::I2p, opens).write_failure == WriteFailure::EndsWriting,
        policy_of(Medium::Shared, opens).write_failure == WriteFailure::Ignored,
        policy_of(Medium::Radio, opens).write_failure == WriteFailure::EndsConnection,
        policy_of(Medium::Shared, opens).drops_while_closed,
        !policy_of(Medium::Serial, opens).drops_while_closed,
        !policy_of(Medium::Controller, opens).drops_while_closed,
        !policy_of(Medium::Process(delay), opens).drops_while_closed,
        !policy_of(Medium::Backbone, opens).drops_while_closed,
        !policy_of(Medium::I2p, opens).drops_while_closed,
        !policy_of(Medium::Radio, opens).drops_while_closed,
        policy_of(Medium::Serial, opens).settle_wait == 500_000_000,
        policy_of(Medium::Controller, opens).settle_wait == 2_000_000_000,
        policy_of(Medium::Process(delay), opens).settle_wait == 0,
        policy_of(Medium::Backbone, opens).settle_wait == 0,
        policy_of(Medium::I2p, opens).settle_wait == 0,
        policy_of(Medium::Shared, opens).settle_wait == 0,
        policy_of(Medium::Radio, opens).settle_wait == 0,
        policy_of(Medium::Serial, opens).opens == opens,
        policy_of(Medium::Controller, opens).opens == opens,
        policy_of(Medium::Process(delay), opens).opens == opens,
        policy_of(Medium::Backbone, opens).opens == opens,
        policy_of(Medium::I2p, opens).opens == opens,
        policy_of(Medium::Shared, opens).opens == opens,
        policy_of(Medium::Radio, opens).opens == opens,
{
}

proof fn flaps_at(entries: Seq<FlapView>, remote: Seq<char>, from: int)
    requires
        0 <= from <= entries.len(),
    ensures
        from <= entry_at(entries, remote, from) <= entries.len(),
        entry_at(entries, remote, from) < entries.len() ==> entries[entry_at(
            entries,
            remote,
            from,
        )].remote == remote,
        forall|k: int|
            from <= k < entry_at(entries, remote, from) ==> (#[trigger] entries[k]).remote
                != remote,
    decreases entries.len() - from,
{
    if from < entries.len() && entries[from].remote != remote {
        flaps_at(entries, remote, from + 1);
    }
}

/// A remote address is refused exactly when flaps are blocked at all, it has flapped more often than
/// is put up with, and its last flap is not as long ago as the expiry says.
pub proof fn flapping_peers_are_blocked(t: TableView, remote: Seq<char>, now: u64, at: int)
    requires
        0 <= at < t.entries.len(),
        t.entries[at].remote == remote,
        forall|k: int| 0 <= k < at ==> (#[trigger] t.entries[k]).remote != remote,
        t.entries[at].last_flap <= now,
    ensures
        blocked(t, remote, now) <==> t.enabled && t.entries[at].flaps > t.grace && now
            - t.entries[at].last_flap < t.expiry,
        flaps_of(t, remote) == t.entries[at].flaps,
{
    flaps_at(t.entries, remote, 0);
    let found = entry_at(t.entries, remote, 0);
    if found < at {
        assert(t.entries[found].remote != remote);
    }
    if at < found {
        assert(t.entries[at].remote != remote);
    }
}

/// A remote address that has not flapped is not refused.
pub proof fn quiet_peers_are_not_blocked(t: TableView, remote: Seq<char>, now: u64)
    requires
        forall|k: int| 0 <= k < t.entries.len() ==> (#[trigger] t.entries[k]).remote != remote,
    ensures
        !blocked(t, remote, now),
        flaps_of(t, remote) == 0,
{
    flaps_at(t.entries, remote, 0);
}

/// A first short connection of a remote address begins its record, with one flap at that time.
pub proof fn first_flaps_are_recorded(
    t: TableView,
    remote: Seq<char>,
    connected_for: u64,
    now: u64,
)
    requires
        t.enabled,
        connected_for < t.threshold,
        forall|k: int| 0 <= k < t.entries.len() ==> (#[trigger] t.entries[k]).remote != remote,
    ensures
        after_disconnect(t, remote, connected_for, now).entries == t.entries.push(
            FlapView { remote, started: now, last_flap: now, flaps: 1 },
        ),
{
    flaps_at(t.entries, remote, 0);
}

/// Each further short connection counts as one more, and is the last.
pub proof fn further_flaps_are_counted(
    t: TableView,
    remote: Seq<char>,
    connected_for: u64,
    now: u64,
    at: int,
)
    requires
        t.enabled,
        connected_for < t.threshold,
        0 <= at < t.entries.len(),
        t.entries[at].remote == remote,
        t.entries[at].flaps < u32::MAX,
        forall|k: int| 0 <= k < at ==> (#[trigger] t.entries[k]).remote != remote,
    ensures
        ({
            let after = after_disconnect(t, remote, connected_for, now);
            &&& after.entries == t.entries.update(at, after.entries[at])
            &&& after.entries[at].flaps == t.entries[at].flaps + 1
            &&& after.entries[at].last_flap == now
            &&& after.entries[at].started == t.entries[at].started
            &&& after.entries[at].remote == remote
        }),
{
    flaps_at(t.entries, remote, 0);
    let found = entry_at(t.entries, remote, 0);
    if found < at {
        assert(t.entries[found].remote != remote);
    }
    if at < found {
        assert(t.entries[at].remote != remote);
    }
}

/// Nothing is recorded where flaps are not blocked, nor of a connection that lasted long enough.
pub proof fn long_connections_are_no_flaps(
    t: TableView,
    remote: Seq<char>,
    connected_for: u64,
    now: u64,
)
    requires
        !t.enabled || connected_for >= t.threshold,
    ensures
        after_disconnect(t, remote, connected_for, now) == t,
{
}

/// Cleaning keeps exactly the records whose last flap is not as long ago as the expiry says.
pub proof fn cleaning_keeps_recent_flaps(t: TableView, now: u64, n: int, i: int)
    requires
        0 <= i < n <= t.entries.len(),
        t.entries[i].last_flap <= now,
    ensures
        now - t.entries[i].last_flap < t.expiry ==> fresh(t, now, n).contains(t.entries[i]),
        forall|k: int|
            0 <= k < fresh(t, now, n).len() && (#[trigger] fresh(t, now, n)[k]).last_flap <= now
                ==> now - fresh(t, now, n)[k].last_flap < t.expiry,
        fresh(t, now, n).len() <= n,
    decreases n,
{
    let all = fresh(t, now, n);
    let before = fresh(t, now, n - 1);
    if n > 1 {
        if i < n - 1 {
            cleaning_keeps_recent_flaps(t, now, n - 1, i);
        } else {
            fresh_are_recent(t, now, n - 1);
        }
    }
    if now - t.entries[i].last_flap < t.expiry {
        if i == n - 1 {
            assert(all[all.len() - 1] == t.entries[i]);
        } else {
            let k = choose|k: int| 0 <= k < before.len() && before[k] == t.entries[i];
            assert(all[k] == t.entries[i]);
        }
    }
    fresh_are_recent(t, now, n);
}

proof fn fresh_are_recent(t: TableView, now: u64, n: int)
    requires
        0 <= n <= t.entries.len(),
    ensures
        forall|k: int|
            0 <= k < fresh(t, now, n).len() && (#[trigger] fresh(t, now, n)[k]).last_flap <= now
                ==> now - fresh(t, now, n)[k].last_flap < t.expiry,
        fresh(t, now, n).len() <= n,
    decreases n,
{
    if n > 0 {
        fresh_are_recent(t, now, n - 1);
        let all = fresh(t, now, n);
        let before = fresh(t, now, n - 1);
        assert forall|k: int| 0 <= k < all.len() && (#[trigger] all[k]).last_flap <= now implies now
            - all[k].last_flap < t.expiry by {
            if k < before.len() {
                assert(all[k] == before[k]);
            }
        }
    }
}

/// As many remote addresses count as over the limit as have flapped more often than is put up with.
pub proof fn blocked_peers_are_counted(t: TableView, n: int)
    requires
        0 <= n < t.entries.len(),
    ensures
        over_grace(t, 0) == 0,
        t.entries[n].flaps > t.grace ==> over_grace(t, n + 1) == over_grace(t, n) + 1,
        t.entries[n].flaps <= t.grace ==> over_grace(t, n + 1) == over_grace(t, n),
{
}

/// A packet is new unless the same one came within the last three quarters of a second, among the
/// last forty-eight.
pub proof fn packets_are_new_once(
    memory: Seq<(Seq<u8>, u64)>,
    data: Seq<u8>,
    now: u64,
)
    ensures
        ({
            let (after, is_new) = after_packet(memory, data, now);
            &&& is_new <==> forall|i: int|
                0 <= i < memory.len() ==> (#[trigger] memory[i]).0 != hash::sha256_digest(data)
                    || now >= memory[i].1 + 750_000_000
            &&& !is_new ==> after == memory
            &&& is_new ==> after.len() > 0 && after.last() == (hash::sha256_digest(data), now)
            &&& is_new && memory.len() < 48 ==> after.drop_last() == memory
            &&& is_new && memory.len() == 48 ==> after.drop_last() == memory.skip(1)
        }),
{
    let digest = hash::sha256_digest(data);
    if !is_remembered(memory, digest, now) {
        let pushed = memory.push((digest, now));
        let after = after_packet(memory, data, now).0;
        if memory.len() < 48 {
            assert(after.drop_last() =~= memory);
        } else if memory.len() == 48 {
            assert(after =~= pushed.skip(1));
            assert(after.drop_last() =~= memory.skip(1));
        } else {
            assert(after.last() == pushed.last());
        }
        assert forall|i: int| 0 <= i < memory.len() implies (#[trigger] memory[i]).0 != digest
            || now >= memory[i].1 + 750_000_000 by {}
    } else {
        let i = choose|i: int|
            0 <= i < memory.len() && (#[trigger] memory[i]).0 == digest && now < memory[i].1
                + 750_000_000;
        assert(memory[i].0 == digest);
    }
}

proof fn peers_at(peers: Seq<PeerView>, addr: Seq<u8>, from: int)
    requires
        0 <= from <= peers.len(),
    ensures
        from <= peer_at(peers, addr, from) <= peers.len(),
        peer_at(peers, addr, from) < peers.len() ==> peers[peer_at(peers, addr, from)].addr == addr,
        forall|k: int|
            from <= k < peer_at(peers, addr, from) ==> (#[trigger] peers[k]).addr != addr,
    decreases peers.len() - from,
{
    if from < peers.len() && peers[from].addr != addr {
        peers_at(peers, addr, from + 1);
    }
}

/// A beacon that was not made for the address that it came from changes nothing, and neither does
/// one of this node's own.
pub proof fn false_beacons_change_nothing(
    s: PeersView,
    data: Seq<u8>,
    src: Seq<char>,
    addr: Seq<u8>,
    ifname: Seq<char>,
    now: u64,
)
    ensures
        ({
            let (after, action) = after_beacon(s, data, src, addr, ifname, now);
            let genuine = crate::iface::auto::is_token(
                vstd::utf8::encode_utf8(s.group_id),
                vstd::utf8::encode_utf8(src),
                data,
            );
            &&& !genuine ==> after == s && action == BeaconAction::Forged
            &&& genuine && s.own.contains(addr) ==> after == s && action == BeaconAction::Echo
            &&& action == BeaconAction::Forged ==> !genuine
            &&& action == BeaconAction::Echo ==> s.own.contains(addr)
        }),
{
}

/// A beacon of a peer that is not known yet adds it, with the interface and the time, where it can
/// be reached; the peers that there are stay as they are.
pub proof fn beacons_find_peers(
    s: PeersView,
    data: Seq<u8>,
    src: Seq<char>,
    addr: Seq<u8>,
    ifname: Seq<char>,
    now: u64,
)
    requires
        crate::iface::auto::is_token(
            vstd::utf8::encode_utf8(s.group_id),
            vstd::utf8::encode_utf8(src),
            data,
        ),
        !s.own.contains(addr),
        forall|k: int| 0 <= k < s.peers.len() ==> (#[trigger] s.peers[k]).addr != addr,
    ensures
        ({
            let (after, action) = after_beacon(s, data, src, addr, ifname, now);
            &&& s.names.contains(ifname) ==> action == BeaconAction::Added && after.peers
                == s.peers.push(
                (PeerView { addr, ifname, last_heard: now, last_outbound: now }),
            )
            &&& !s.names.contains(ifname) ==> action == BeaconAction::Unreachable && after == s
        }),
{
    peers_at(s.peers, addr, 0);
}

/// A beacon of a known peer is a sign of life of it, and of no other.
pub proof fn beacons_refresh_peers(
    s: PeersView,
    data: Seq<u8>,
    src: Seq<char>,
    addr: Seq<u8>,
    ifname: Seq<char>,
    now: u64,
    at: int,
)
    requires
        crate::iface::auto::is_token(
            vstd::utf8::encode_utf8(s.group_id),
            vstd::utf8::encode_utf8(src),
            data,
        ),
        !s.own.contains(addr),
        0 <= at < s.peers.len(),
        s.peers[at].addr == addr,
        forall|k: int| 0 <= k < at ==> (#[trigger] s.peers[k]).addr != addr,
    ensures
        ({
            let (after, action) = after_beacon(s, data, src, addr, ifname, now);
            &&& action == BeaconAction::Refreshed
            &&& after.peers.len() == s.peers.len()
            &&& after.peers[at] == (PeerView { last_heard: now, ..s.peers[at] })
            &&& forall|k: int|
                0 <= k < s.peers.len() && k != at ==> #[trigger] after.peers[k] == s.peers[k]
        }),
{
    peers_at(s.peers, addr, 0);
    let found = peer_at(s.peers, addr, 0);
    if found < at {
        assert(s.peers[found].addr != addr);
    } else if at < found {
        assert(s.peers[at].addr != addr);
    }
}

/// Data of a peer is delivered when it is new, and is a sign of life then; data from elsewhere is
/// not delivered.
pub proof fn peers_deliver_new_data(
    s: PeersView,
    data: Seq<u8>,
    addr: Seq<u8>,
    now: u64,
    at: int,
)
    requires
        0 <= at < s.peers.len(),
        s.peers[at].addr == addr,
        forall|k: int| 0 <= k < at ==> (#[trigger] s.peers[k]).addr != addr,
    ensures
        ({
            let (after, delivered) = after_data(s, data, addr, now);
            &&& delivered <==> after_packet(s.memory, data, now).1
            &&& delivered ==> after.peers[at].last_heard == now
            &&& after.memory == after_packet(s.memory, data, now).0
            &&& !delivered ==> after.peers == s.peers
        }),
{
    peers_at(s.peers, addr, 0);
    let found = peer_at(s.peers, addr, 0);
    if found < at {
        assert(s.peers[found].addr != addr);
    } else if at < found {
        assert(s.peers[at].addr != addr);
    }
}

/// A peer that has given no sign of life for more than twenty-two seconds is dropped; any other
/// stays, and gets a beacon when the last one is more than 5.2 seconds ago.
pub proof fn silent_peers_are_dropped(peers: Seq<PeerView>, now: u64, n: int, i: int)
    requires
        0 <= i < n <= peers.len(),
    ensures
        ({
            let p = peers[i];
            let silent = now > p.last_heard + 22_000_000_000;
            let due = now > p.last_outbound + 5_200_000_000;
            &&& silent ==> dropped(peers, now, n).contains(p.addr)
            &&& !silent && due ==> beaconed(peers, now, n).contains(p.addr) && kept(
                peers,
                now,
                n,
            ).contains((PeerView { last_outbound: now, ..p }))
            &&& !silent && !due ==> kept(peers, now, n).contains(p)
            &&& kept(peers, now, n).len() + dropped(peers, now, n).len() == n
        }),
    decreases n,
{
    let p = peers[i];
    let (k0, d0, b0) = (kept(peers, now, n - 1), dropped(peers, now, n - 1), beaconed(
        peers,
        now,
        n - 1,
    ));
    let (k1, d1, b1) = (kept(peers, now, n), dropped(peers, now, n), beaconed(peers, now, n));
    kept_and_dropped(peers, now, n);
    let silent = now > p.last_heard + 22_000_000_000;
    let due = now > p.last_outbound + 5_200_000_000;
    if i < n - 1 {
        silent_peers_are_dropped(peers, now, n - 1, i);
        if silent {
            let j = choose|j: int| 0 <= j < d0.len() && d0[j] == p.addr;
            assert(d1[j] == p.addr);
        } else if due {
            let j = choose|j: int| 0 <= j < b0.len() && b0[j] == p.addr;
            assert(b1[j] == p.addr);
            let marked = PeerView { last_outbound: now, ..p };
            let j = choose|j: int| 0 <= j < k0.len() && k0[j] == marked;
            assert(k1[j] == marked);
        } else {
            let j = choose|j: int| 0 <= j < k0.len() && k0[j] == p;
            assert(k1[j] == p);
        }
    } else {
        if silent {
            assert(d1[d1.len() - 1] == p.addr);
        } else if due {
            assert(b1[b1.len() - 1] == p.addr);
            assert(k1[k1.len() - 1] == (PeerView { last_outbound: now, ..p }));
        } else {
            assert(k1[k1.len() - 1] == p);
        }
    }
}

proof fn kept_and_dropped(peers: Seq<PeerView>, now: u64, n: int)
    requires
        0 <= n <= peers.len(),
    ensures
        kept(peers, now, n).len() + dropped(peers, now, n).len() == n,
    decreases n,
{
    if n > 0 {
        kept_and_dropped(peers, now, n - 1);
    }
}

/// A beacon goes to no peer that is dropped or has had one lately.
pub proof fn beacons_go_where_they_are_due(peers: Seq<PeerView>, now: u64, n: int, j: int)
    requires
        0 <= n <= peers.len(),
        0 <= j < beaconed(peers, now, n).len(),
    ensures
        exists|i: int|
            0 <= i < n && (#[trigger] peers[i]).addr == beaconed(peers, now, n)[j] && now
                <= peers[i].last_heard + 22_000_000_000 && now > peers[i].last_outbound
                + 5_200_000_000,
    decreases n,
{
    if n > 0 {
        let before = beaconed(peers, now, n - 1);
        if j < before.len() {
            beacons_go_where_they_are_due(peers, now, n - 1, j);
            let i = choose|i: int|
                0 <= i < n - 1 && (#[trigger] peers[i]).addr == before[j] && now
                    <= peers[i].last_heard + 22_000_000_000 && now > peers[i].last_outbound
                    + 5_200_000_000;
            assert(peers[i].addr == beaconed(peers, now, n)[j]);
        } else {
            assert(peers[n - 1].addr == beaconed(peers, now, n)[j]);
        }
    }
}

/// A client is let in exactly when its name is on the list, or there is no list, and its token is
/// the one that is asked for, or none is.
pub proof fn clients_need_name_and_token(
    access: SharedInstanceAccessConfig,
    name: Seq<char>,
    token: Seq<u8>,
)
    ensures
        access.lets_in(name, token) <==> (access.allow@.len() == 0 || exists|i: int|
            0 <= i < access.allow@.len() && (#[trigger] access.allow@[i])@ == name) && (
        access.required_token is None || access.required_token->0@ == token),
{
    let names = crate::iface::local::name_views(access.allow@);
    if names.contains(name) {
        let i = choose|i: int| 0 <= i < names.len() && names[i] == name;
        assert(access.allow@[i]@ == name);
    }
    if exists|i: int| 0 <= i < access.allow@.len() && (#[trigger] access.allow@[i])@ == name {
        let i = choose|i: int|
            0 <= i < access.allow@.len() && (#[trigger] access.allow@[i])@ == name;
        assert(names[i] == name);
    }
}

/// The first frame that holds a name and a token decides; frames that hold none are passed over, and
/// without one that does the client is waited for.
pub proof fn first_credentials_decide(
    access: SharedInstanceAccessConfig,
    frames: Seq<Seq<u8>>,
    n: int,
    i: int,
)
    requires
        0 <= n <= i <= frames.len(),
        forall|k: int| n <= k < i ==> auth_in(#[trigger] frames[k]) is None,
        i < frames.len() ==> auth_in(frames[i]) is Some,
    ensures
        i == frames.len() ==> answer(access, frames, n) == AuthView::Waiting,
        i < frames.len() ==> {
            let (name, token) = auth_in(frames[i])->0;
            &&& access.lets_in(name, token) ==> answer(access, frames, n) == AuthView::Accepted(
                name,
            )
            &&& !access.lets_in(name, token) ==> answer(access, frames, n) == AuthView::Rejected
        },
    decreases i - n,
{
    if n < i {
        assert(auth_in(frames[n]) is None);
        first_credentials_decide(access, frames, n + 1, i);
    }
}

/// What a transmitter writes for a packet when it is not held back and no beacon is due is the frame
/// of that packet, and nothing else of its state changes.
pub proof fn packets_are_written(t: TxView, packet: Seq<u8>, now: u64)
    requires
        !t.flow_control || t.ready,
        !beacon_due(t, now),
    ensures
        after_begin(t, Some(packet), now) == (
            TxView { stage: StageView::Data(packet), ..t },
            Some(WriteView { frame: kiss::encoded(t.mode, packet), payload_len: packet.len() }),
        ),
{
}

/// Frames that had to wait go out first come, first served, once the terminal is ready; until then
/// they keep waiting, and with nothing to write nothing is written.
pub proof fn waiting_frames_go_out(t: TxView, now: u64)
    requires
        !beacon_due(t, now),
    ensures
        t.queue.len() > 0 && (!t.flow_control || t.ready) ==> after_begin(t, None, now) == (
            TxView { queue: t.queue.drop_first(), stage: StageView::Queued, ..t },
            Some(WriteView { frame: t.queue[0], payload_len: 0 }),
        ),
        t.queue.len() > 0 && t.flow_control && !t.ready ==> after_begin(t, None, now).1 is None
            && after_begin(t, None, now).0.queue == t.queue.drop_first().push(t.queue[0]),
        t.queue.len() == 0 ==> after_begin(t, None, now).1 is None && after_begin(
            t,
            None,
            now,
        ).0.queue.len() == 0,
{
    if t.queue.len() > 0 {
        assert(t.queue.skip(1) =~= t.queue.drop_first());
    }
}

/// The beacon is due when there is one, packets have gone out since the last one, and its interval
/// in seconds has passed since the first of them. It then goes out before the packet.
pub proof fn due_beacons_go_first(t: TxView, packet: Seq<u8>, now: u64)
    ensures
        beacon_due(t, now) <==> t.beacon is Some && t.first_tx is Some && now > t.first_tx->0
            + (t.beacon->0).interval * 1_000_000_000,
        (!t.flow_control || t.ready) && beacon_due(t, now) ==> {
            let (next, write) = after_begin(t, Some(packet), now);
            &&& next.stage == StageView::Beacon(Some(packet))
            &&& write is Some
            &&& (write->0).frame == kiss::encoded(t.mode, padded((t.beacon->0).data))
        },
{
}

/// A beacon is padded with zeros to fifteen bytes, and longer ones are left as they are.
pub proof fn beacons_are_padded(data: Seq<u8>)
    ensures
        data.len() < 15 ==> padded(data).len() == 15,
        data.len() >= 15 ==> padded(data) == data,
        padded(data).take(data.len() as int) == data,
        forall|i: int| data.len() <= i < padded(data).len() ==> #[trigger] padded(data)[i] == 0,
{
    assert(padded(data).take(data.len() as int) =~= data);
}

/// Behind a beacon its packet follows, when the way is clear; a packet that went out starts the time
/// to the next beacon, unless that runs already.
pub proof fn packets_follow_their_beacon(t: TxView, packet: Seq<u8>, now: u64)
    requires
        !t.flow_control,
    ensures
        t.stage == StageView::Beacon(Some(packet)) ==> {
            let (next, write) = after_wrote(t, true, now);
            &&& next.stage == StageView::Data(packet)
            &&& next.first_tx is None
            &&& write is Some
            &&& (write->0).frame == kiss::encoded(t.mode, packet)
        },
        t.stage == StageView::Data(packet) ==> {
            let (next, write) = after_wrote(t, true, now);
            &&& next.stage == StageView::Idle
            &&& write is None
            &&& t.first_tx is Some ==> next.first_tx == t.first_tx
            &&& t.first_tx is None && t.beacon is Some && packet != (t.beacon->0).data
                ==> next.first_tx == Some(now)
            &&& t.first_tx is None && t.beacon is None ==> next.first_tx is None
        },
{
}

/// Frames are held back exactly with flow control and a terminal that is not ready; a write that
/// failed does not make it less ready.
pub proof fn failed_writes_keep_the_way_clear(t: TxView, packet: Seq<u8>, now: u64)
    requires
        t.stage == StageView::Data(packet),
    ensures
        held(t) <==> t.flow_control && !t.ready,
        after_wrote(t, false, now).0.ready == t.ready,
        after_wrote(t, false, now).0.first_tx == t.first_tx,
{
}

/// The frames of a stream that are longer than what is ignored all come through, in their order, and
/// no others.
pub proof fn long_frames_come_through(kind: StreamKind, frames: Seq<Seq<u8>>, n: int, i: int)
    requires
        0 <= i < n <= frames.len(),
    ensures
        frames[i].len() > ignored_len(kind) ==> considered(kind, frames, n).contains(frames[i]),
        forall|k: int|
            0 <= k < considered(kind, frames, n).len() ==> (#[trigger] considered(
                kind,
                frames,
                n,
            )[k]).len() > ignored_len(kind),
    decreases n,
{
    let all = considered(kind, frames, n);
    let before = considered(kind, frames, n - 1);
    if n > 1 {
        long_frames_come_through(
            kind,
            frames,
            n - 1,
            if i < n - 1 {
                i
            } else {
                0
            },
        );
    }
    if frames[i].len() > ignored_len(kind) {
        if i == n - 1 {
            assert(all[all.len() - 1] == frames[i]);
        } else {
            let k = choose|k: int| 0 <= k < before.len() && before[k] == frames[i];
            assert(all[k] == frames[i]);
        }
    }
    assert forall|k: int| 0 <= k < all.len() implies (#[trigger] all[k]).len() > ignored_len(
        kind,
    ) by {
        if k < before.len() {
            assert(all[k] == before[k]);
        }
    }
}

/// The limits of the kinds of streams: the longest frame, what is ignored, and the longest encoded
/// frame.
pub proof fn streams_have_their_limits()
    ensures
        counts_packet(StreamKind::Backbone),
        counts_packet(StreamKind::I2p),
        !counts_packet(StreamKind::Local),
        !counts_packet(StreamKind::Pipe),
        !counts_packet(StreamKind::Serial),
        frame_limit(StreamKind::Backbone) == 32768,
        frame_limit(StreamKind::I2p) == 1064,
        frame_limit(StreamKind::Local) == 262144,
        frame_limit(StreamKind::Pipe) == 1064,
        frame_limit(StreamKind::Serial) == 564,
        ignored_len(StreamKind::Backbone) == 2,
        ignored_len(StreamKind::I2p) == 2,
        ignored_len(StreamKind::Local) == 19,
        ignored_len(StreamKind::Pipe) == 0,
        ignored_len(StreamKind::Serial) == 0,
        encoded_limit(StreamKind::Backbone) == Some(2560nat),
        encoded_limit(StreamKind::I2p) == Some(2304nat),
        encoded_limit(StreamKind::Local) is None,
        encoded_limit(StreamKind::Pipe) is None,
        encoded_limit(StreamKind::Serial) is None,
{
}

} // verus!
