//! Known destinations: what announces have told of destinations, and when it was last used.

use vstd::prelude::*;

use crate::error::RnsError;
use crate::hash::AddressHash;
use crate::identity;
use crate::identity::Identity;
use crate::storage::backend::Storage;
use crate::storage::files;
use crate::storage::files::{DestinationUses, KnownDestinationData, KnownView};
use crate::storage::order;
use crate::storage::order::{place, Ordered};
use crate::table;
use crate::table::Table;

verus! {

/// The file of known destinations.
pub const KNOWN_DESTINATIONS_FILE: &'static str = "known_destinations";

/// How long a destination that was never used stays, in ticks: six minutes.
pub const UNUSED_DESTINATION_LINGER: u64 = 1_509_949_440;

/// How long a destination stays after its last use, in ticks: a week and a quarter.
pub const USED_DESTINATION_LINGER: u64 = 3_170_893_824_000;

/// The known destinations.
#[derive(Debug)]
pub struct KnownDestinations {
    entries: Table<AddressHash, KnownDestinationData>,
    dirty: bool,
}

/// The known destinations, as a mathematical value.
#[verifier::ext_equal]
pub struct StoreView {
    pub entries: Map<AddressHash, KnownView>,
    /// Whether something has changed since it was saved or loaded.
    pub dirty: bool,
}

impl View for KnownDestinations {
    type V = StoreView;

    closed spec fn view(&self) -> StoreView {
        StoreView {
            entries: self.entries@.map_values(|data: KnownDestinationData| data@),
            dirty: self.dirty,
        }
    }
}

/// The store with the use of a destination changed.
pub open spec fn with_uses(
    store: StoreView,
    hash: AddressHash,
    uses: DestinationUses,
) -> StoreView {
    StoreView {
        entries: store.entries.insert(hash, KnownView { uses, ..store.entries[hash] }),
        dirty: true,
    }
}

/// The store after an announce.
pub open spec fn after_remember(
    store: StoreView,
    hash: AddressHash,
    time: u64,
    packet_hash: Seq<u8>,
    public_key: Seq<u8>,
    app_data: Option<Seq<u8>>,
) -> StoreView {
    let uses = if store.entries.contains_key(hash) {
        store.entries[hash].uses
    } else {
        DestinationUses::Never
    };
    StoreView {
        entries: store.entries.insert(
            hash,
            KnownView { time, packet_hash, public_key, app_data, uses },
        ),
        dirty: true,
    }
}

/// The store after the data of a destination was used.
pub open spec fn after_use(store: StoreView, hash: AddressHash, now: u64) -> (StoreView, bool) {
    if store.entries.contains_key(hash) && !(store.entries[hash].uses is Retained) {
        (with_uses(store, hash, DestinationUses::LastUsed(now)), true)
    } else {
        (store, false)
    }
}

/// The store after a change of the use of a destination.
pub open spec fn after_set_uses(
    store: StoreView,
    hash: AddressHash,
    uses: DestinationUses,
) -> (StoreView, bool) {
    if store.entries.contains_key(hash) {
        (with_uses(store, hash, uses), true)
    } else {
        (store, false)
    }
}

/// Whether a destination belongs to an identity.
pub open spec fn belongs_to(v: KnownView, identity_hash: AddressHash) -> bool {
    identity::identity_address(v.public_key) == identity_hash@
}

/// The store after the destinations of an identity are kept.
pub open spec fn after_retain_identity(store: StoreView, identity_hash: AddressHash) -> (
    StoreView,
    bool,
) {
    let any = exists|hash: AddressHash|
        #[trigger] store.entries.contains_key(hash) && belongs_to(
            store.entries[hash],
            identity_hash,
        );
    (
        StoreView {
            entries: store.entries.map_values(
                |v: KnownView|
                    if belongs_to(v, identity_hash) {
                        KnownView { uses: DestinationUses::Retained, ..v }
                    } else {
                        v
                    },
            ),
            dirty: store.dirty || any,
        },
        any,
    )
}

/// Whether a destination is to go: it is not kept, there is no path to it, and it was not used,
/// or announced if it was never used, for long.
pub open spec fn is_stale(v: KnownView, now: u64, has_path: bool) -> bool {
    !has_path && match v.uses {
        DestinationUses::Retained => false,
        DestinationUses::Never => now - v.time > UNUSED_DESTINATION_LINGER,
        DestinationUses::LastUsed(at) => now - at > USED_DESTINATION_LINGER,
    }
}

/// Whether a destination goes, or stays, as it is due by what a call of `has_path` with it
/// answered.
pub open spec fn is_judged<F: Fn(&AddressHash) -> bool>(
    has_path: F,
    hash: AddressHash,
    v: KnownView,
    now: u64,
    gone: bool,
) -> bool {
    exists|answer: bool| #[trigger]
        has_path.ensures((&hash,), answer) && gone == is_stale(v, now, answer)
}

/// Whether a list holds the entries of a map in the order of their hashes.
pub open spec fn is_listing(
    list: Seq<(AddressHash, KnownView)>,
    entries: Map<AddressHash, KnownView>,
) -> bool {
    &&& order::increasing(list.map_values(|e: (AddressHash, KnownView)| e.0.code()))
    &&& forall|hash: AddressHash| #[trigger] entries.contains_key(hash) ==> exists|i: int|
        0 <= i < list.len() && (#[trigger] list[i]).0 == hash
    &&& forall|i: int|
        0 <= i < list.len() ==> entries.contains_key((#[trigger] list[i]).0)
            && entries[list[i].0] == list[i].1
}

/// Addresses that are ordered alike are the same.
proof fn same_address(a: AddressHash, b: AddressHash)
    requires
        a.code() == b.code(),
    ensures
        a == b,
{
    assert forall|i: int| 0 <= i < 16 implies a@[i] == b@[i] by {
        assert(a.code()[i] == a@[i] as int);
        assert(b.code()[i] == b@[i] as int);
    }
    assert(a.0 =~= b.0);
}

impl KnownDestinations {
    /// That no destination occurs twice.
    pub closed spec fn wf(&self) -> bool {
        self.entries.wf()
    }

    /// A store without destinations.
    pub fn new() -> (r: Self)
        ensures
            r.wf(),
            r@ == (StoreView { entries: Map::<AddressHash, KnownView>::empty(), dirty: false }),
    {
        let r = KnownDestinations { entries: Table::new(), dirty: false };
        assert(r@.entries =~= Map::<AddressHash, KnownView>::empty());
        r
    }

    /// Remembers an announce of a destination. When it was last used stays.
    pub fn remember(
        &mut self,
        packet_hash: [u8; 32],
        destination_hash: AddressHash,
        public_key: [u8; 64],
        app_data: Option<Vec<u8>>,
        now: u64,
    )
        requires
            old(self).wf(),
        ensures
            final(self).wf(),
            final(self)@ == after_remember(
                old(self)@,
                destination_hash,
                now,
                packet_hash@,
                public_key@,
                files::data_view(app_data),
            ),
    {
        let uses: DestinationUses = match self.entries.get(&destination_hash) {
            Some(entry) => entry.uses,
            None => DestinationUses::Never,
        };
        let data = KnownDestinationData { time: now, packet_hash, public_key, app_data, uses };
        let ghost start = self@;
        self.entries.insert(destination_hash, data);
        self.dirty = true;
        assert(self@.entries =~= start.entries.insert(destination_hash, data@));
    }

    /// Changes the use of a destination.
    fn set_uses(&mut self, hash: &AddressHash, uses: DestinationUses) -> (r: bool)
        requires
            old(self).wf(),
        ensures
            final(self).wf(),
            (final(self)@, r) == after_set_uses(old(self)@, *hash, uses),
            final(self).entries.keys() == old(self).entries.keys(),
    {
        let ghost start = self.entries@;
        let data: KnownDestinationData = match self.entries.get(hash) {
            Some(entry) => {
                let mut data: KnownDestinationData = entry.clone();
                data.uses = uses;
                data
            },
            None => return false,
        };
        self.entries.insert(*hash, data);
        self.dirty = true;
        assert(self@.entries =~= old(self)@.entries.insert(*hash, data@));
        true
    }

    /// The identity of a destination; its data counts as used.
    pub fn recall(&mut self, destination_hash: &AddressHash, now: u64) -> (r: Option<Identity>)
        requires
            old(self).wf(),
        ensures
            final(self).wf(),
            r is Some <==> old(self)@.entries.contains_key(*destination_hash),
            r is Some ==> r->0@ == old(self)@.entries[*destination_hash].public_key,
            final(self)@ == after_use(old(self)@, *destination_hash, now).0,
    {
        let r: Option<Identity> = self.recall_no_use(destination_hash);
        if r.is_some() {
            self.mark_used(destination_hash, now);
        }
        r
    }

    /// The identity of a destination; its data does not count as used.
    pub fn recall_no_use(&self, destination_hash: &AddressHash) -> (r: Option<Identity>)
        requires
            self.wf(),
        ensures
            r is Some <==> self@.entries.contains_key(*destination_hash),
            r is Some ==> r->0@ == self@.entries[*destination_hash].public_key,
    {
        match self.entries.get(destination_hash) {
            Some(entry) => Some(Identity::new_from_bytes(&entry.public_key)),
            None => None,
        }
    }

    /// The application data that a destination last announced; its data counts as used when there
    /// is some.
    pub fn recall_app_data(&mut self, destination_hash: &AddressHash, now: u64) -> (r: Option<
        Vec<u8>,
    >)
        requires
            old(self).wf(),
        ensures
            final(self).wf(),
            files::data_view(r) == (if old(self)@.entries.contains_key(*destination_hash) {
                old(self)@.entries[*destination_hash].app_data
            } else {
                None
            }),
            final(self)@ == (if r is Some {
                after_use(old(self)@, *destination_hash, now).0
            } else {
                old(self)@
            }),
    {
        let app_data: Option<Vec<u8>> = match self.entries.get(destination_hash) {
            Some(entry) => entry.clone().app_data,
            None => None,
        };
        if app_data.is_some() {
            self.mark_used(destination_hash, now);
        }
        app_data
    }

    /// Marks the data of a destination as used. That of one that is kept stays as it is.
    pub fn mark_used(&mut self, destination_hash: &AddressHash, now: u64) -> (r: bool)
        requires
            old(self).wf(),
        ensures
            final(self).wf(),
            (final(self)@, r) == after_use(old(self)@, *destination_hash, now),
    {
        let retained: bool = match self.entries.get(destination_hash) {
            Some(entry) => entry.uses.is_retained(),
            None => true,
        };
        if retained {
            return false;
        }
        self.set_uses(destination_hash, DestinationUses::LastUsed(now))
    }

    /// Keeps the data of a destination.
    pub fn retain(&mut self, destination_hash: &AddressHash) -> (r: bool)
        requires
            old(self).wf(),
        ensures
            final(self).wf(),
            (final(self)@, r) == after_set_uses(
                old(self)@,
                *destination_hash,
                DestinationUses::Retained,
            ),
    {
        self.set_uses(destination_hash, DestinationUses::Retained)
    }

    /// Keeps the data of a destination no longer; it counts as used now.
    pub fn unretain(&mut self, destination_hash: &AddressHash, now: u64) -> (r: bool)
        requires
            old(self).wf(),
        ensures
            final(self).wf(),
            (final(self)@, r) == after_set_uses(
                old(self)@,
                *destination_hash,
                DestinationUses::LastUsed(now),
            ),
    {
        self.set_uses(destination_hash, DestinationUses::LastUsed(now))
    }

    /// Keeps the data of every destination of an identity. Returns whether there is one.
    pub fn retain_identity(&mut self, identity_hash: &AddressHash) -> (r: bool)
        requires
            old(self).wf(),
        ensures
            final(self).wf(),
            (final(self)@, r) == after_retain_identity(old(self)@, *identity_hash),
    {
        let ghost start = self@;
        let ghost keys = self.entries.keys();
        let mut retained: bool = false;
        let mut i: usize = 0;
        proof {
            self.entries.keys_are_domain();
            assert forall|k: int| 0 <= k < keys.len() implies start.entries.contains_key(
                #[trigger] keys[k],
            ) by {
                assert(keys.contains(keys[k]));
            }
        }
        while i < self.entries.len()
            invariant
                self.wf(),
                i <= keys.len(),
                self.entries.keys() == keys,
                keys.no_duplicates(),
                self@.entries.dom() =~= start.entries.dom(),
                self@.dirty == (start.dirty || retained),
                forall|k: int|
                    0 <= k < keys.len() ==> start.entries.contains_key(#[trigger] keys[k]),
                forall|k: int|
                    0 <= k < i ==> self@.entries[#[trigger] keys[k]] == (if belongs_to(
                        start.entries[keys[k]],
                        *identity_hash,
                    ) {
                        KnownView { uses: DestinationUses::Retained, ..start.entries[keys[k]] }
                    } else {
                        start.entries[keys[k]]
                    }),
                forall|k: int|
                    i <= k < keys.len() ==> self@.entries[#[trigger] keys[k]]
                        == start.entries[keys[k]],
                retained <==> exists|k: int|
                    0 <= k < i && belongs_to(start.entries[#[trigger] keys[k]], *identity_hash),
            decreases keys.len() - i,
        {
            let hash: AddressHash = self.entries.key_at(i);
            let ghost before = self@;
            let belongs: bool = match self.recall_no_use(&hash) {
                Some(identity) => {
                    let address: AddressHash = identity.address_hash();
                    proof {
                        if address@ == identity_hash@ {
                            assert(address.0 =~= identity_hash.0);
                        }
                    }
                    address.same(identity_hash)
                },
                None => false,
            };
            assert(keys[i as int] == hash);
            assert(belongs == belongs_to(start.entries[hash], *identity_hash));
            if belongs {
                self.set_uses(&hash, DestinationUses::Retained);
                retained = true;
                proof {
                    assert forall|k: int| 0 <= k < keys.len() && k != i implies self@.entries[
                    #[trigger] keys[k]] == before.entries[keys[k]] by {
                        assert(keys[k] != keys[i as int]);
                    }
                    assert(belongs_to(start.entries[keys[i as int]], *identity_hash));
                }
            }
            i += 1;
        }
        proof {
            let goal = after_retain_identity(start, *identity_hash);
            assert forall|hash: AddressHash| #[trigger]
                start.entries.contains_key(hash) implies self@.entries[hash]
                == goal.0.entries[hash] by {
                assert(keys.contains(hash));
                let k = choose|k: int| 0 <= k < keys.len() && keys[k] == hash;
                assert(self@.entries[keys[k]] == goal.0.entries[keys[k]]);
            }
            assert(self@.entries =~= goal.0.entries);
            assert(retained == goal.1) by {
                if retained {
                    let k = choose|k: int|
                        0 <= k < i && belongs_to(
                            start.entries[#[trigger] keys[k]],
                            *identity_hash,
                        );
                    assert(start.entries.contains_key(keys[k]));
                }
                if goal.1 {
                    let hash = choose|hash: AddressHash|
                        #[trigger] start.entries.contains_key(hash) && belongs_to(
                            start.entries[hash],
                            *identity_hash,
                        );
                    assert(keys.contains(hash));
                    let k = choose|k: int| 0 <= k < keys.len() && keys[k] == hash;
                    assert(belongs_to(start.entries[keys[k]], *identity_hash));
                }
            }
        }
        retained
    }

    /// The addresses of the destinations, in order.
    fn sorted_keys(&self) -> (r: Vec<AddressHash>)
        requires
            self.wf(),
        ensures
            order::increasing(order::codes_of(r@)),
            forall|hash: AddressHash|
                #[trigger] r@.contains(hash) <==> self@.entries.contains_key(hash),
            r@.len() == self.entries.keys().len(),
    {
        let ghost keys = self.entries.keys();
        let mut r: Vec<AddressHash> = Vec::new();
        let mut i: usize = 0;
        proof {
            self.entries.keys_are_domain();
        }
        while i < self.entries.len()
            invariant
                self.wf(),
                i <= keys.len(),
                r@.len() == i,
                self.entries.keys() == keys,
                keys.no_duplicates(),
                order::increasing(order::codes_of(r@)),
                forall|hash: AddressHash|
                    #[trigger] r@.contains(hash) <==> exists|k: int|
                        0 <= k < i && #[trigger] keys[k] == hash,
            decreases keys.len() - i,
        {
            let hash: AddressHash = self.entries.key_at(i);
            let ghost before = r@;
            proof {
                if order::codes_of(before).contains(hash.code()) {
                    let k = choose|k: int|
                        0 <= k < before.len() && order::codes_of(before)[k] == hash.code();
                    same_address(before[k], hash);
                    assert(before.contains(hash));
                    let m = choose|m: int| 0 <= m < i && #[trigger] keys[m] == hash;
                    assert(keys[m] != keys[i as int]);
                }
            }
            let at: usize = place(&mut r, hash);
            proof {
                assert forall|other: AddressHash| #[trigger] r@.contains(other) <==> exists|k: int|
                    0 <= k < i + 1 && #[trigger] keys[k] == other by {
                    inserted(before, at as int, hash, other);
                    if other == hash {
                        assert(keys[i as int] == other);
                    }
                }
            }
            i += 1;
        }
        proof {
            assert forall|hash: AddressHash| #[trigger]
                r@.contains(hash) <==> self@.entries.contains_key(hash) by {
                assert(keys.contains(hash) <==> self.entries@.dom().contains(hash));
                if r@.contains(hash) {
                    let k = choose|k: int| 0 <= k < i && #[trigger] keys[k] == hash;
                    assert(keys.contains(hash));
                }
                if keys.contains(hash) {
                    let k = choose|k: int| 0 <= k < keys.len() && keys[k] == hash;
                    assert(keys[k] == hash);
                }
            }
        }
        r
    }

    /// Removes the destinations that are neither kept, nor used, nor reachable. `has_path` tells
    /// whether there is a path to a destination. Returns the addresses that are gone, in order.
    pub fn clean<F: Fn(&AddressHash) -> bool>(&mut self, now: u64, has_path: F) -> (r: Vec<
        AddressHash,
    >)
        requires
            old(self).wf(),
            forall|hash: &AddressHash| has_path.requires((hash,)),
        ensures
            final(self).wf(),
            order::increasing(order::codes_of(r@)),
            forall|hash: AddressHash|
                #[trigger] r@.contains(hash) ==> old(self)@.entries.contains_key(hash),
            forall|hash: AddressHash| #[trigger]
                old(self)@.entries.contains_key(hash) ==> is_judged(
                    has_path,
                    hash,
                    old(self)@.entries[hash],
                    now,
                    r@.contains(hash),
                ),
            final(self)@.entries == old(self)@.entries.remove_keys(r@.to_set()),
            final(self)@.dirty == (old(self)@.dirty || r@.len() > 0),
    {
        let keys: Vec<AddressHash> = self.sorted_keys();
        let ghost start = self@;
        let mut r: Vec<AddressHash> = Vec::new();
        let mut i: usize = 0;
        while i < keys.len()
            invariant
                self.wf(),
                i <= keys@.len(),
                start == old(self)@,
                self@.dirty == start.dirty,
                order::increasing(order::codes_of(keys@)),
                order::increasing(order::codes_of(r@)),
                forall|hash: &AddressHash| has_path.requires((hash,)),
                forall|hash: AddressHash|
                    #[trigger] keys@.contains(hash) <==> start.entries.contains_key(hash),
                forall|k: int|
                    0 <= k < r@.len() ==> exists|m: int|
                        0 <= m < i && keys@[m] == #[trigger] r@[k],
                forall|hash: AddressHash|
                    #[trigger] keys@.take(i as int).contains(hash) ==> is_judged(
                        has_path,
                        hash,
                        start.entries[hash],
                        now,
                        r@.contains(hash),
                    ),
                self@.entries == start.entries.remove_keys(r@.to_set()),
            decreases keys@.len() - i,
        {
            let hash: AddressHash = keys[i];
            let ghost gone = r@;
            proof {
                assert(keys@.contains(hash));
                if gone.contains(hash) {
                    let k = choose|k: int| 0 <= k < gone.len() && gone[k] == hash;
                    let m = choose|m: int| 0 <= m < i && keys@[m] == gone[k];
                    order::increasing_is_distinct(order::codes_of(keys@), m, i as int);
                }
                assert(self@.entries.contains_key(hash));
                assert(self@.entries[hash] == start.entries[hash]);
            }
            let reachable: bool = has_path(&hash);
            let stale: bool = match self.entries.get(&hash) {
                Some(entry) => expired(entry, now, reachable),
                None => false,
            };
            assert(has_path.ensures((&hash,), reachable));
            assert(stale == is_stale(start.entries[hash], now, reachable));
            assert(keys@.take(i + 1) =~= keys@.take(i as int).push(hash));
            if stale {
                let ghost held = self@.entries;
                self.entries.remove(&hash);
                r.push(hash);
                assert(self@.entries =~= held.remove(hash));
                proof {
                    assert(r@.to_set() =~= gone.to_set().insert(hash)) by {
                        assert forall|h: AddressHash| r@.contains(h) <==> gone.contains(h) || h
                            == hash by {
                            pushed(gone, hash, h);
                        }
                    }
                    assert(self@.entries =~= start.entries.remove_keys(r@.to_set()));
                    assert(order::increasing(order::codes_of(r@))) by {
                        let codes = order::codes_of(r@);
                        assert forall|a: int, b: int| 0 <= a < b < codes.len() implies order::before(
                            #[trigger] codes[a],
                            #[trigger] codes[b],
                        ) by {
                            if b < gone.len() {
                                assert(codes[a] == order::codes_of(gone)[a]);
                                assert(codes[b] == order::codes_of(gone)[b]);
                            } else {
                                let m = choose|m: int| 0 <= m < i && keys@[m] == gone[a];
                                assert(codes[a] == order::codes_of(keys@)[m]);
                                assert(codes[b] == order::codes_of(keys@)[i as int]);
                            }
                        }
                    }
                }
            }
            proof {
                assert forall|h: AddressHash| #[trigger]
                    keys@.take(i + 1).contains(h) implies is_judged(
                    has_path,
                    h,
                    start.entries[h],
                    now,
                    r@.contains(h),
                ) by {
                    pushed(keys@.take(i as int), hash, h);
                    if stale {
                        pushed(gone, hash, h);
                    }
                    if h == hash {
                        assert(!gone.contains(hash));
                        assert(r@.contains(hash) == stale);
                    } else {
                        assert(keys@.take(i as int).contains(h));
                        assert(r@.contains(h) == gone.contains(h));
                    }
                }
                assert forall|k: int| 0 <= k < r@.len() implies exists|m: int|
                    0 <= m < i + 1 && keys@[m] == #[trigger] r@[k] by {
                    if k < gone.len() {
                        assert(r@[k] == gone[k]);
                        let m = choose|m: int| 0 <= m < i && keys@[m] == gone[k];
                        assert(keys@[m] == r@[k]);
                    } else {
                        assert(keys@[i as int] == r@[k]);
                    }
                }
            }
            i += 1;
        }
        if r.len() > 0 {
            self.dirty = true;
        }
        assert(keys@.take(i as int) =~= keys@);
        assert forall|hash: AddressHash| #[trigger] r@.contains(hash) implies old(
            self,
        )@.entries.contains_key(hash) by {
            let k = choose|k: int| 0 <= k < r@.len() && r@[k] == hash;
            let m = choose|m: int| 0 <= m < i && keys@[m] == r@[k];
            assert(keys@.contains(hash));
        }
        assert forall|hash: AddressHash| #[trigger]
            old(self)@.entries.contains_key(hash) implies is_judged(
            has_path,
            hash,
            old(self)@.entries[hash],
            now,
            r@.contains(hash),
        ) by {
            assert(keys@.contains(hash));
            assert(keys@.take(i as int).contains(hash));
        }
        r
    }

    /// How many destinations are known.
    pub fn len(&self) -> (r: usize)
        requires
            self.wf(),
        ensures
            r == self@.entries.len(),
            self@.entries.dom().finite(),
    {
        proof {
            self.entries.keys_are_domain();
            let keys = self.entries.keys();
            keys.unique_seq_to_set();
            assert(keys.to_set() =~= self@.entries.dom());
        }
        self.entries.len()
    }

    /// Whether no destination is known.
    pub fn is_empty(&self) -> (r: bool)
        requires
            self.wf(),
        ensures
            r == (self@.entries.len() == 0),
    {
        self.len() == 0
    }

    /// What is known of a destination.
    pub fn get(&self, destination_hash: &AddressHash) -> (r: Option<&KnownDestinationData>)
        requires
            self.wf(),
        ensures
            r is Some <==> self@.entries.contains_key(*destination_hash),
            r is Some ==> r->0@ == self@.entries[*destination_hash],
    {
        self.entries.get(destination_hash)
    }

    /// Whether a destination is known.
    pub fn contains(&self, destination_hash: &AddressHash) -> (r: bool)
        requires
            self.wf(),
        ensures
            r == self@.entries.contains_key(*destination_hash),
    {
        self.entries.contains(destination_hash)
    }

    /// All that is known, in the order of the addresses.
    pub fn entries(&self) -> (r: Vec<(AddressHash, KnownDestinationData)>)
        requires
            self.wf(),
        ensures
            is_listing(files::known_view(r@), self@.entries),
    {
        let keys: Vec<AddressHash> = self.sorted_keys();
        let mut r: Vec<(AddressHash, KnownDestinationData)> = Vec::new();
        let mut i: usize = 0;
        while i < keys.len()
            invariant
                self.wf(),
                i <= keys@.len(),
                r@.len() == i,
                forall|hash: AddressHash|
                    #[trigger] keys@.contains(hash) <==> self@.entries.contains_key(hash),
                forall|k: int|
                    0 <= k < i ==> (#[trigger] r@[k]).0 == keys@[k] && r@[k].1@
                        == self@.entries[keys@[k]],
            decreases keys@.len() - i,
        {
            let hash: AddressHash = keys[i];
            assert(keys@.contains(hash));
            if let Some(data) = self.entries.get(&hash) {
                r.push((hash, data.clone()));
            }
            i += 1;
        }
        proof {
            let list = files::known_view(r@);
            assert(list.map_values(|e: (AddressHash, KnownView)| e.0.code()) =~= order::codes_of(
                keys@,
            ));
            assert forall|hash: AddressHash| #[trigger]
                self@.entries.contains_key(hash) implies exists|k: int|
                0 <= k < list.len() && (#[trigger] list[k]).0 == hash by {
                assert(keys@.contains(hash));
                let k = choose|k: int| 0 <= k < keys@.len() && keys@[k] == hash;
                assert(r@[k].0 == hash);
                assert(list[k].0 == hash);
            }
            assert forall|k: int| 0 <= k < list.len() implies self@.entries.contains_key(
                (#[trigger] list[k]).0,
            ) && self@.entries[list[k].0] == list[k].1 by {
                assert(list[k] == (r@[k].0, r@[k].1@));
                assert(keys@.contains(keys@[k]));
            }
        }
        r
    }

    /// The file of known destinations.
    pub fn pack(&self) -> (r: Result<Vec<u8>, RnsError>)
        requires
            self.wf(),
        ensures
            exists|list: Seq<(AddressHash, KnownView)>| #[trigger]
                is_listing(list, self@.entries) && match r {
                    Ok(data) => files::known_fit(list) && data@ == files::packed_known(list),
                    Err(err) => !files::known_fit(list) && err == RnsError::OutOfMemory,
                },
    {
        let entries: Vec<(AddressHash, KnownDestinationData)> = self.entries();
        let r: Result<Vec<u8>, RnsError> = files::pack_known_destinations(&entries);
        assert(is_listing(files::known_view(entries@), self@.entries));
        r
    }

    /// Saves what is known, unless nothing has changed since the last time.
    pub fn save<S: Storage>(&mut self, storage: &mut S) -> (r: Result<(), RnsError>)
        requires
            old(self).wf(),
            old(storage).wf(),
        ensures
            final(self).wf(),
            final(storage).wf(),
            final(self)@.entries == old(self)@.entries,
            !old(self)@.dirty && old(storage).files().contains_key(KNOWN_DESTINATIONS_FILE@) ==> {
                &&& r is Ok
                &&& final(self)@ == old(self)@
                &&& final(storage).files() == old(storage).files()
            },
            old(self)@.dirty || !old(storage).files().contains_key(KNOWN_DESTINATIONS_FILE@) ==> {
                &&& r is Ok ==> !final(self)@.dirty && exists|list: Seq<(AddressHash, KnownView)>|
                    #[trigger] is_listing(list, old(self)@.entries) && final(storage).files()
                        == old(storage).files().insert(
                        KNOWN_DESTINATIONS_FILE@,
                        files::packed_known(list),
                    )
                &&& r is Err ==> final(self)@ == old(self)@
                &&& forall|list: Seq<(AddressHash, KnownView)>| #[trigger]
                    is_listing(list, old(self)@.entries) && !files::known_fit(list) ==> r == Err::<
                        (),
                        RnsError,
                    >(RnsError::OutOfMemory) && final(storage).files() == old(storage).files()
            },
    {
        if !self.dirty {
            if storage.read(KNOWN_DESTINATIONS_FILE).is_some() {
                return Ok(());
            }
        }
        let packed: Vec<u8> = match self.pack() {
            Ok(packed) => packed,
            Err(err) => return Err(err),
        };
        proof {
            let ours = choose|list: Seq<(AddressHash, KnownView)>| #[trigger]
                is_listing(list, self@.entries) && files::known_fit(list);
            assert forall|list: Seq<(AddressHash, KnownView)>| #[trigger]
                is_listing(list, self@.entries) implies files::known_fit(list) by {
                listing_is_unique(list, ours, self@.entries);
            }
        }
        match storage.write(KNOWN_DESTINATIONS_FILE, &packed) {
            Ok(()) => {},
            Err(err) => return Err(err),
        }
        self.dirty = false;
        Ok(())
    }

    /// Loads what was saved. Without a file nothing changes.
    pub fn load<S: Storage>(&mut self, storage: &S) -> (r: Result<(), RnsError>)
        requires
            old(self).wf(),
            storage.wf(),
        ensures
            final(self).wf(),
            (final(self)@, r) == after_load(old(self)@, storage.files()),
    {
        let raw: Vec<u8> = match storage.read(KNOWN_DESTINATIONS_FILE) {
            Some(raw) => raw,
            None => return Ok(()),
        };
        let entries: Vec<(AddressHash, KnownDestinationData)> =
            match files::unpack_known_destinations(&raw) {
            Ok(entries) => entries,
            Err(err) => return Err(err),
        };
        let ghost view = files::known_view(entries@);
        let mut next: Table<AddressHash, KnownDestinationData> = Table::new();
        let mut i: usize = 0;
        proof {
            assert(next@.map_values(|data: KnownDestinationData| data@) =~= table::entries_map(
                view.take(0),
            ));
        }
        while i < entries.len()
            invariant
                i <= entries@.len(),
                next.wf(),
                view == files::known_view(entries@),
                next@.map_values(|data: KnownDestinationData| data@) == table::entries_map(
                    view.take(i as int),
                ),
            decreases entries@.len() - i,
        {
            let ghost before = next@.map_values(|data: KnownDestinationData| data@);
            let hash: AddressHash = entries[i].0;
            let data: KnownDestinationData = entries[i].1.clone();
            next.insert(hash, data);
            proof {
                let now = next@.map_values(|data: KnownDestinationData| data@);
                assert(now =~= before.insert(hash, data@));
                assert(view.take(i + 1).drop_last() =~= view.take(i as int));
                assert(view.take(i + 1).last() == (hash, data@));
            }
            i += 1;
        }
        assert(view.take(i as int) =~= view);
        self.entries = next;
        self.dirty = false;
        Ok(())
    }
}

/// The store after loading.
pub open spec fn after_load(store: StoreView, files: Map<Seq<char>, Seq<u8>>) -> (
    StoreView,
    Result<(), RnsError>,
) {
    if !files.contains_key(KNOWN_DESTINATIONS_FILE@) {
        (store, Ok(()))
    } else {
        match files::unpacked_known(files[KNOWN_DESTINATIONS_FILE@]) {
            Ok(entries) => (
                StoreView { entries: table::entries_map(entries), dirty: false },
                Ok(()),
            ),
            Err(err) => (store, Err(err)),
        }
    }
}

/// Whether a destination is to go.
fn expired(data: &KnownDestinationData, now: u64, has_path: bool) -> (r: bool)
    ensures
        r == is_stale(data@, now, has_path),
{
    if has_path {
        return false;
    }
    match data.uses {
        DestinationUses::Retained => false,
        DestinationUses::Never => now > data.time && now - data.time > UNUSED_DESTINATION_LINGER,
        DestinationUses::LastUsed(at) => now > at && now - at > USED_DESTINATION_LINGER,
    }
}

/// What a list holds after an item is added.
proof fn pushed<T>(list: Seq<T>, item: T, other: T)
    ensures
        list.push(item).contains(other) <==> list.contains(other) || other == item,
{
    assert(list.insert(list.len() as int, item) =~= list.push(item));
    inserted(list, list.len() as int, item, other);
}

/// The entries of a listing make up the map that it lists.
proof fn listing_map(list: Seq<(AddressHash, KnownView)>, entries: Map<AddressHash, KnownView>)
    requires
        is_listing(list, entries),
    ensures
        table::entries_map(list) == entries,
{
    let codes = list.map_values(|e: (AddressHash, KnownView)| e.0.code());
    assert(table::keys_unique(list)) by {
        assert forall|i: int, j: int| 0 <= i < j < list.len() implies (#[trigger] list[i]).0 != (
        #[trigger] list[j]).0 by {
            assert(codes[i] == list[i].0.code());
            assert(codes[j] == list[j].0.code());
            order::increasing_is_distinct(codes, i, j);
        }
    }
    assert forall|hash: AddressHash| #[trigger]
        table::entries_map(list).contains_key(hash) <==> entries.contains_key(hash) by {
        table::entries_map_get(list, hash);
        if table::entries_map(list).contains_key(hash) {
            let i = choose|i: int| 0 <= i < list.len() && (#[trigger] list[i]).0 == hash;
            assert(entries.contains_key(list[i].0));
        }
    }
    assert forall|hash: AddressHash| #[trigger] entries.contains_key(hash) implies entries[hash]
        == table::entries_map(list)[hash] by {
        table::entries_map_get(list, hash);
        let i = choose|i: int| 0 <= i < list.len() && (#[trigger] list[i]).0 == hash;
        assert(list[i].0 == hash);
    }
    assert(table::entries_map(list) =~= entries);
}

/// What is saved is loaded again: a file that holds a listing of a store gives that store, in any
/// other.
pub proof fn saved_is_loaded(
    store: StoreView,
    list: Seq<(AddressHash, KnownView)>,
    other: StoreView,
    files: Map<Seq<char>, Seq<u8>>,
)
    requires
        is_listing(list, store.entries),
        list.len() < 4294967296,
        forall|hash: AddressHash| #[trigger]
            store.entries.contains_key(hash) ==> files::is_exact(store.entries[hash]),
    ensures
        after_load(
            other,
            files.insert(KNOWN_DESTINATIONS_FILE@, files::packed_known(list)),
        ) == (StoreView { entries: store.entries, dirty: false }, Ok::<(), RnsError>(())),
{
    assert forall|i: int| 0 <= i < list.len() implies files::is_exact((#[trigger] list[i]).1) by {
        assert(store.entries.contains_key(list[i].0));
    }
    files::known_round_trip(list);
    listing_map(list, store.entries);
}

/// There is one listing of a store.
pub proof fn listing_is_unique(
    a: Seq<(AddressHash, KnownView)>,
    b: Seq<(AddressHash, KnownView)>,
    entries: Map<AddressHash, KnownView>,
)
    requires
        is_listing(a, entries),
        is_listing(b, entries),
    ensures
        a == b,
{
    let x = a.map_values(|e: (AddressHash, KnownView)| e.0.code());
    let y = b.map_values(|e: (AddressHash, KnownView)| e.0.code());
    assert forall|code: Seq<int>| x.contains(code) <==> y.contains(code) by {
        if x.contains(code) {
            listed_in_both(a, b, entries, code);
        }
        if y.contains(code) {
            listed_in_both(b, a, entries, code);
        }
    }
    order::increasing_is_unique(x, y);
    assert forall|i: int| 0 <= i < a.len() implies a[i] == b[i] by {
        assert(x[i] == a[i].0.code());
        assert(y[i] == b[i].0.code());
        same_address(a[i].0, b[i].0);
    }
    assert(x.len() == a.len());
    assert(y.len() == b.len());
    assert(a =~= b);
}

/// An address of one listing is in any other.
proof fn listed_in_both(
    a: Seq<(AddressHash, KnownView)>,
    b: Seq<(AddressHash, KnownView)>,
    entries: Map<AddressHash, KnownView>,
    code: Seq<int>,
)
    requires
        is_listing(a, entries),
        is_listing(b, entries),
        a.map_values(|e: (AddressHash, KnownView)| e.0.code()).contains(code),
    ensures
        b.map_values(|e: (AddressHash, KnownView)| e.0.code()).contains(code),
{
    let x = a.map_values(|e: (AddressHash, KnownView)| e.0.code());
    let y = b.map_values(|e: (AddressHash, KnownView)| e.0.code());
    let i = choose|i: int| 0 <= i < x.len() && x[i] == code;
    assert(entries.contains_key(a[i].0));
    let j = choose|j: int| 0 <= j < b.len() && (#[trigger] b[j]).0 == a[i].0;
    assert(y[j] == code);
}

/// A destination that is kept survives every cleaning.
pub proof fn retained_stays(v: KnownView, now: u64, has_path: bool)
    requires
        v.uses is Retained,
    ensures
        !is_stale(v, now, has_path),
{
}

/// What a list holds after an item is put in.
proof fn inserted<T>(list: Seq<T>, at: int, item: T, other: T)
    requires
        0 <= at <= list.len(),
    ensures
        list.insert(at, item).contains(other) <==> list.contains(other) || other == item,
{
    let next = list.insert(at, item);
    if next.contains(other) {
        let k = choose|k: int| 0 <= k < next.len() && next[k] == other;
        if k < at {
            assert(list[k] == other);
        } else if k > at {
            assert(list[k - 1] == other);
        }
    }
    if list.contains(other) {
        let k = choose|k: int| 0 <= k < list.len() && list[k] == other;
        if k < at {
            assert(next[k] == other);
        } else {
            assert(next[k + 1] == other);
        }
    }
    if other == item {
        assert(next[at] == other);
    }
}

} // verus!
