//! Backbone links over TCP.
//!
//! Peers whose connections repeatedly drop right after they were made are counted by address. Above
//! a limit, further connections from that address are refused until none has dropped for long
//! enough.

use vstd::prelude::*;
use vstd::string::*;

use crate::iface::control;
use crate::iface::lifecycle;
use crate::iface::lifecycle::{Lifecycle, Medium};
use crate::iface::Interface;
use crate::text;

verus! {

/// The longest packet.
pub const HW_MTU: usize = 32768;

/// Assumed bits per second.
pub const BITRATE_GUESS: u64 = 1_000_000_000;

pub const BLOCK_FAST_FLAPPING: bool = true;

/// A connection that lasts less than this, in nanoseconds, counts as a flap.
pub const FAST_FLAP_THRESHOLD: u64 = 20_000_000_000;

/// Flaps that are put up with.
pub const FAST_FLAP_GRACE: u32 = 5;

/// Time without a flap after which a block ends.
pub const FAST_FLAP_EXPIRY: u64 = 43_200_000_000_000;

/// Wait before a connection is made again.
pub const RECONNECT_WAIT: u64 = 15_000_000_000;

/// Wait before listening is tried again.
pub const BIND_WAIT: u64 = 5_000_000_000;

/// Time between two rounds over the blocks.
pub const CLEAN_INTERVAL: u64 = 60_000_000_000;

/// The flaps of one remote address.
#[derive(Debug)]
pub struct FlapEntry {
    pub remote: String,
    /// When the first and the last flap were.
    pub started: u64,
    pub last_flap: u64,
    pub flaps: u32,
}

/// The flaps of one remote address, as a mathematical value.
#[verifier::ext_equal]
pub struct FlapView {
    pub remote: Seq<char>,
    pub started: u64,
    pub last_flap: u64,
    pub flaps: u32,
}

impl View for FlapEntry {
    type V = FlapView;

    open spec fn view(&self) -> FlapView {
        FlapView {
            remote: self.remote@,
            started: self.started,
            last_flap: self.last_flap,
            flaps: self.flaps,
        }
    }
}

/// The flaps by remote address.
#[derive(Debug)]
pub struct FastFlapTable {
    enabled: bool,
    threshold: u64,
    grace: u32,
    expiry: u64,
    entries: Vec<FlapEntry>,
}

/// The flaps by remote address, as a mathematical value.
#[verifier::ext_equal]
pub struct TableView {
    pub enabled: bool,
    pub threshold: u64,
    pub grace: u32,
    pub expiry: u64,
    pub entries: Seq<FlapView>,
}

/// Entries as mathematical values.
pub open spec fn entry_views(entries: Seq<FlapEntry>) -> Seq<FlapView> {
    entries.map_values(|e: FlapEntry| e@)
}

impl View for FastFlapTable {
    type V = TableView;

    closed spec fn view(&self) -> TableView {
        TableView {
            enabled: self.enabled,
            threshold: self.threshold,
            grace: self.grace,
            expiry: self.expiry,
            entries: entry_views(self.entries@),
        }
    }
}

/// Where the entry of a remote address is, or the number of entries.
pub open spec fn entry_at(entries: Seq<FlapView>, remote: Seq<char>, from: int) -> int
    decreases entries.len() - from,
{
    if from < 0 || from >= entries.len() {
        entries.len() as int
    } else if entries[from].remote == remote {
        from
    } else {
        entry_at(entries, remote, from + 1)
    }
}

/// How often a remote address has flapped.
pub open spec fn flaps_of(t: TableView, remote: Seq<char>) -> u32 {
    let at = entry_at(t.entries, remote, 0);
    if at < t.entries.len() {
        t.entries[at].flaps
    } else {
        0
    }
}

/// Whether the last flap of an entry is recent enough for the entry to count.
pub open spec fn is_fresh(t: TableView, e: FlapView, now: u64) -> bool {
    control::elapsed(e.last_flap, now) < t.expiry
}

/// Whether connections from a remote address are refused.
pub open spec fn blocked(t: TableView, remote: Seq<char>, now: u64) -> bool {
    let at = entry_at(t.entries, remote, 0);
    &&& t.enabled
    &&& at < t.entries.len()
    &&& t.entries[at].flaps > t.grace
    &&& is_fresh(t, t.entries[at], now)
}

/// The table after a connection has ended.
pub open spec fn after_disconnect(
    t: TableView,
    remote: Seq<char>,
    connected_for: u64,
    now: u64,
) -> TableView {
    let at = entry_at(t.entries, remote, 0);
    if !t.enabled || connected_for >= t.threshold {
        t
    } else if at < t.entries.len() {
        TableView {
            entries: t.entries.update(
                at,
                FlapView {
                    last_flap: now,
                    flaps: (t.entries[at].flaps + 1) as u32,
                    ..t.entries[at]
                },
            ),
            ..t
        }
    } else {
        TableView {
            entries: t.entries.push(FlapView { remote, started: now, last_flap: now, flaps: 1 }),
            ..t
        }
    }
}

/// The first `n` entries without those that no longer count.
pub open spec fn fresh(t: TableView, now: u64, n: int) -> Seq<FlapView>
    decreases n,
{
    if n <= 0 {
        Seq::empty()
    } else if is_fresh(t, t.entries[n - 1], now) {
        fresh(t, now, n - 1).push(t.entries[n - 1])
    } else {
        fresh(t, now, n - 1)
    }
}

/// How many of the first `n` entries have flapped too often.
pub open spec fn over_grace(t: TableView, n: int) -> nat
    decreases n,
{
    if n <= 0 {
        0
    } else {
        over_grace(t, n - 1) + (if t.entries[n - 1].flaps > t.grace {
            1nat
        } else {
            0
        })
    }
}

impl Default for FastFlapTable {
    /// A table that suppresses nothing.
    fn default() -> (r: Self)
        ensures
            r@ == (TableView {
                enabled: false,
                threshold: 0,
                grace: 0,
                expiry: 0,
                entries: Seq::empty(),
            }),
    {
        FastFlapTable::new(false, 0, 0, 0)
    }
}

impl FastFlapTable {
    /// A table without entries.
    pub fn new(enabled: bool, threshold: u64, grace: u32, expiry: u64) -> (r: Self)
        ensures
            r@ == (TableView { enabled, threshold, grace, expiry, entries: Seq::empty() }),
    {
        let r: FastFlapTable = FastFlapTable {
            enabled,
            threshold,
            grace,
            expiry,
            entries: Vec::new(),
        };
        assert(r@.entries =~= Seq::<FlapView>::empty());
        r
    }

    fn find(&self, remote: &str) -> (r: usize)
        ensures
            r == entry_at(self@.entries, remote@, 0),
            r <= self.entries@.len(),
            r < self.entries@.len() ==> self@.entries[r as int] == self.entries@[r as int]@,
            self@.entries.len() == self.entries@.len(),
    {
        let mut i: usize = 0;
        while i < self.entries.len()
            invariant
                i <= self.entries@.len(),
                entry_at(self@.entries, remote@, 0) == entry_at(
                    self@.entries,
                    remote@,
                    i as int,
                ),
            decreases self.entries@.len() - i,
        {
            assert(self@.entries[i as int] == self.entries@[i as int]@);
            if text::same_text(self.entries[i].remote.as_str(), remote) {
                return i;
            }
            i += 1;
        }
        i
    }

    /// How often a remote address has flapped.
    pub fn flaps(&self, remote: &str) -> (r: u32)
        ensures
            r == flaps_of(self@, remote@),
    {
        let at: usize = self.find(remote);
        if at < self.entries.len() {
            self.entries[at].flaps
        } else {
            0
        }
    }

    /// Whether connections from a remote address are refused now.
    pub fn is_blocked(&self, remote: &str, now: u64) -> (r: bool)
        ensures
            r == blocked(self@, remote@, now),
    {
        if !self.enabled {
            return false;
        }
        let at: usize = self.find(remote);
        at < self.entries.len() && self.entries[at].flaps > self.grace && control::since(
            self.entries[at].last_flap,
            now,
        ) < self.expiry
    }

    /// A connection with a remote address has ended after so long. Returns how often it has
    /// flapped.
    pub fn account_disconnect(&mut self, remote: &str, connected_for: u64, now: u64) -> (r: u32)
        requires
            old(self)@.enabled && connected_for < old(self)@.threshold ==> flaps_of(
                old(self)@,
                remote@,
            ) < u32::MAX,
        ensures
            final(self)@ == after_disconnect(old(self)@, remote@, connected_for, now),
            r == flaps_of(old(self)@, remote@) + (if old(self)@.enabled && connected_for
                < old(self)@.threshold {
                1int
            } else {
                0
            }),
    {
        let at: usize = self.find(remote);
        if !self.enabled || connected_for >= self.threshold {
            return self.flaps(remote);
        }
        if at < self.entries.len() {
            self.entries[at].last_flap = now;
            self.entries[at].flaps = self.entries[at].flaps + 1;
            assert(self@.entries =~= after_disconnect(
                old(self)@,
                remote@,
                connected_for,
                now,
            ).entries);
            self.entries[at].flaps
        } else {
            self.entries.push(
                FlapEntry { remote: remote.to_owned(), started: now, last_flap: now, flaps: 1 },
            );
            assert(self@.entries =~= after_disconnect(
                old(self)@,
                remote@,
                connected_for,
                now,
            ).entries);
            1
        }
    }

    /// Drops the entries that no longer count. Returns how many.
    pub fn clean(&mut self, now: u64) -> (r: usize)
        ensures
            final(self)@ == (TableView {
                entries: fresh(old(self)@, now, old(self)@.entries.len() as int),
                ..old(self)@
            }),
            r == old(self)@.entries.len() - final(self)@.entries.len(),
    {
        let before: usize = self.entries.len();
        let ghost t = self@;
        let ghost mut seen: int = 0;
        let mut i: usize = 0;
        assert(self@.entries =~= fresh(t, now, 0) + t.entries.skip(0));
        while i < self.entries.len()
            invariant
                0 <= seen <= t.entries.len(),
                t == old(self)@,
                i == fresh(t, now, seen).len(),
                i <= seen,
                self@ == (TableView {
                    entries: fresh(t, now, seen) + t.entries.skip(seen),
                    ..t
                }),
            decreases t.entries.len() - seen,
        {
            let ghost head = fresh(t, now, seen);
            let ghost current = self@.entries;
            proof {
                assert(current.len() == head.len() + t.entries.len() - seen);
                assert(current[i as int] == t.entries[seen]);
                assert(current[i as int] == self.entries@[i as int]@);
            }
            if control::since(self.entries[i].last_flap, now) < self.expiry {
                i += 1;
                assert(self@.entries =~= head.push(t.entries[seen]) + t.entries.skip(seen + 1));
            } else {
                let _ = self.entries.remove(i);
                assert(self@.entries =~= current.remove(i as int));
                assert(self@.entries =~= head + t.entries.skip(seen + 1));
            }
            proof {
                seen = seen + 1;
            }
        }
        assert(self@.entries.len() == fresh(t, now, seen).len() + t.entries.len() - seen);
        assert(self@.entries =~= fresh(t, now, t.entries.len() as int));
        before - self.entries.len()
    }

    /// How many remote addresses have flapped too often.
    pub fn blocked_count(&self) -> (r: usize)
        ensures
            r == over_grace(self@, self@.entries.len() as int),
    {
        let mut r: usize = 0;
        let mut i: usize = 0;
        while i < self.entries.len()
            invariant
                i <= self.entries@.len(),
                r <= i,
                r == over_grace(self@, i as int),
            decreases self.entries@.len() - i,
        {
            assert(self@.entries[i as int] == self.entries@[i as int]@);
            if self.entries[i].flaps > self.grace {
                r += 1;
            }
            i += 1;
        }
        r
    }
}

proof fn entry_at_bounds(entries: Seq<FlapView>, remote: Seq<char>, from: int)
    requires
        0 <= from <= entries.len(),
    ensures
        from <= entry_at(entries, remote, from) <= entries.len(),
        entry_at(entries, remote, from) < entries.len() ==> entries[entry_at(
            entries,
            remote,
            from,
        )].remote == remote,
        forall|i: int|
            from <= i < entry_at(entries, remote, from) ==> (#[trigger] entries[i]).remote
                != remote,
    decreases entries.len() - from,
{
    if from < entries.len() && entries[from].remote != remote {
        entry_at_bounds(entries, remote, from + 1);
    }
}

/// The entry of an address is the first with it.
proof fn entry_at_first(entries: Seq<FlapView>, remote: Seq<char>, from: int, at: int)
    requires
        0 <= from <= at < entries.len(),
        entries[at].remote == remote,
        forall|i: int| from <= i < at ==> (#[trigger] entries[i]).remote != remote,
    ensures
        entry_at(entries, remote, from) == at,
    decreases at - from,
{
    if from < at {
        entry_at_first(entries, remote, from + 1, at);
    }
}

/// A connection that lasted long enough changes nothing. One that did not counts once more for its
/// address, and only for it; and once the count is above the limit, the address is blocked until
/// the time without a flap has passed.
pub proof fn flaps_lead_to_blocks(
    t: TableView,
    remote: Seq<char>,
    other: Seq<char>,
    connected_for: u64,
    now: u64,
    later: u64,
)
    requires
        flaps_of(t, remote) < u32::MAX,
        now <= later,
        other != remote,
    ensures
        ({
            let next = after_disconnect(t, remote, connected_for, now);
            &&& connected_for >= t.threshold ==> next == t
            &&& t.enabled && connected_for < t.threshold ==> flaps_of(next, remote) == flaps_of(
                t,
                remote,
            ) + 1
            &&& flaps_of(next, other) == flaps_of(t, other)
            &&& t.enabled && connected_for < t.threshold ==> (blocked(next, remote, later)
                <==> flaps_of(t, remote) + 1 > t.grace && later - now < t.expiry)
        }),
{
    let next = after_disconnect(t, remote, connected_for, now);
    entry_at_bounds(t.entries, remote, 0);
    entry_at_bounds(t.entries, other, 0);
    let at = entry_at(t.entries, remote, 0);
    let beside = entry_at(t.entries, other, 0);
    if t.enabled && connected_for < t.threshold {
        if at < t.entries.len() {
            assert(next.entries[at].remote == remote);
        }
        assert forall|i: int| 0 <= i < at implies (#[trigger] next.entries[i]).remote != remote by {
            assert(t.entries[i].remote != remote);
        }
        entry_at_first(next.entries, remote, 0, at);
        if beside < t.entries.len() {
            assert(next.entries[beside].remote == other);
            assert forall|i: int| 0 <= i < beside implies (#[trigger] next.entries[i]).remote
                != other by {
                if i < t.entries.len() {
                    assert(t.entries[i].remote != other);
                }
            }
            entry_at_first(next.entries, other, 0, beside);
        } else {
            entry_at_bounds(next.entries, other, 0);
            let found = entry_at(next.entries, other, 0);
            if found < next.entries.len() {
                assert(next.entries[found].remote == other);
                if found < t.entries.len() {
                    assert(t.entries[found].remote != other);
                }
            }
        }
    }
}

/// A backbone peer: one that connections are made to, or one that has connected.
pub struct BackboneClient {
    /// Where connections are made to.
    pub addr: Option<String>,
    /// The address of a peer that has connected.
    pub remote: Option<String>,
}

impl BackboneClient {
    /// A peer that connections are made to.
    pub fn new(addr: &str) -> (r: Self)
        ensures
            r.addr is Some && r.addr->0@ == addr@,
            r.remote is None,
    {
        BackboneClient { addr: Some(addr.to_owned()), remote: None }
    }

    /// A peer that has connected.
    pub fn new_from_stream(remote: String) -> (r: Self)
        ensures
            r.addr is None,
            r.remote == Some(remote),
    {
        BackboneClient { addr: None, remote: Some(remote) }
    }

    /// The life of the interface.
    pub fn lifecycle(&self) -> (r: Lifecycle)
        ensures
            r == lifecycle::started(Medium::Backbone, self.addr is Some),
    {
        Lifecycle::new(Medium::Backbone, self.addr.is_some())
    }

    /// The address that flaps are counted under.
    pub fn flap_address(&self) -> (r: Option<&str>)
        ensures
            match (self.remote, self.addr) {
                (Some(remote), _) => r is Some && r->0@ == remote@,
                (None, Some(addr)) => r is Some && r->0@ == addr@,
                (None, None) => r is None,
            },
    {
        match (&self.remote, &self.addr) {
            (Some(remote), _) => Some(remote.as_str()),
            (None, Some(addr)) => Some(addr.as_str()),
            (None, None) => None,
        }
    }
}

impl Interface for BackboneClient {
    fn mtu() -> (r: usize)
        ensures
            r == HW_MTU,
    {
        HW_MTU
    }
}

/// Where backbone connections are accepted.
pub struct BackboneServer {
    /// The address that is listened on.
    pub addr: String,
}

impl BackboneServer {
    /// A server that listens on an address.
    pub fn new(addr: &str) -> (r: Self)
        ensures
            r.addr@ == addr@,
    {
        BackboneServer { addr: addr.to_owned() }
    }
}

impl Interface for BackboneServer {
    fn mtu() -> (r: usize)
        ensures
            r == HW_MTU,
    {
        HW_MTU
    }
}

} // verus!
