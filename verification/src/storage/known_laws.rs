//! What holds of the known destinations over several calls: what announces leave as it is, what
//! counts as used, and what a cleaning takes away.

use vstd::prelude::*;

use crate::hash::AddressHash;
use crate::identity;
use crate::storage::files::{DestinationUses, KnownView};
use crate::storage::known::{
    after_remember, after_retain_identity, after_set_uses, after_use, is_judged, is_listing,
    is_stale, StoreView,
};
use crate::storage::order::{before, Ordered};

verus! {

/// An announce, as it is remembered.
pub struct Heard {
    pub time: u64,
    pub packet_hash: Seq<u8>,
    pub public_key: Seq<u8>,
    pub app_data: Option<Seq<u8>>,
}

/// A store after announces of one destination, one after the other.
pub open spec fn after_announces(store: StoreView, hash: AddressHash, heard: Seq<Heard>) -> StoreView
    decreases heard.len(),
{
    if heard.len() == 0 {
        store
    } else {
        let last = heard.last();
        after_remember(
            after_announces(store, hash, heard.drop_last()),
            hash,
            last.time,
            last.packet_hash,
            last.public_key,
            last.app_data,
        )
    }
}

/// An announce of a known destination brings its data up to date and leaves its use as it was: one
/// that is kept stays kept, and when one was last used does not change.
pub proof fn announces_leave_the_use(
    store: StoreView,
    hash: AddressHash,
    time: u64,
    packet_hash: Seq<u8>,
    public_key: Seq<u8>,
    app_data: Option<Seq<u8>>,
)
    requires
        store.entries.contains_key(hash),
    ensures
        ({
            let after = after_remember(store, hash, time, packet_hash, public_key, app_data);
            &&& after.entries.contains_key(hash)
            &&& after.entries[hash].uses == store.entries[hash].uses
            &&& after.entries[hash].time == time
            &&& after.entries[hash].packet_hash == packet_hash
            &&& after.entries[hash].public_key == public_key
            &&& after.entries[hash].app_data == app_data
        }),
{
}

/// A destination that was not known is known after its announce, and has never been used.
pub proof fn new_destinations_are_unused(
    store: StoreView,
    hash: AddressHash,
    time: u64,
    packet_hash: Seq<u8>,
    public_key: Seq<u8>,
    app_data: Option<Seq<u8>>,
)
    requires
        !store.entries.contains_key(hash),
    ensures
        ({
            let after = after_remember(store, hash, time, packet_hash, public_key, app_data);
            &&& after.entries.contains_key(hash)
            &&& after.entries[hash] == (KnownView {
                time,
                packet_hash,
                public_key,
                app_data,
                uses: DestinationUses::Never,
            })
        }),
{
}

/// An announce leaves what is known of other destinations as it is, and is to be saved.
pub proof fn announces_leave_other_destinations(
    store: StoreView,
    hash: AddressHash,
    time: u64,
    packet_hash: Seq<u8>,
    public_key: Seq<u8>,
    app_data: Option<Seq<u8>>,
    other: AddressHash,
)
    requires
        other != hash,
    ensures
        ({
            let after = after_remember(store, hash, time, packet_hash, public_key, app_data);
            &&& after.entries.contains_key(other) == store.entries.contains_key(other)
            &&& store.entries.contains_key(other) ==> after.entries[other] == store.entries[other]
            &&& after.dirty
        }),
{
}

/// Any number of announces leaves the use of a known destination as it was.
pub proof fn uses_outlast_announces(store: StoreView, hash: AddressHash, heard: Seq<Heard>)
    requires
        store.entries.contains_key(hash),
    ensures
        after_announces(store, hash, heard).entries.contains_key(hash),
        after_announces(store, hash, heard).entries[hash].uses == store.entries[hash].uses,
    decreases heard.len(),
{
    if heard.len() > 0 {
        uses_outlast_announces(store, hash, heard.drop_last());
    }
}

/// A destination that is kept survives any number of announces and the cleaning after them,
/// whatever the time and whether there is a path or not.
pub proof fn kept_destinations_survive(
    store: StoreView,
    hash: AddressHash,
    heard: Seq<Heard>,
    now: u64,
    has_path: bool,
)
    requires
        store.entries.contains_key(hash),
    ensures
        ({
            let kept = after_set_uses(store, hash, DestinationUses::Retained).0;
            let later = after_announces(kept, hash, heard);
            &&& later.entries.contains_key(hash)
            &&& later.entries[hash].uses == DestinationUses::Retained
            &&& !is_stale(later.entries[hash], now, has_path)
        }),
{
    uses_outlast_announces(
        after_set_uses(store, hash, DestinationUses::Retained).0,
        hash,
        heard,
    );
}

/// A cleaning takes away exactly: without a path, a destination that was never used six minutes
/// after its last announce, and one that was used a week and a quarter after its last use. (There
/// are 4194304 ticks in a second.)
pub proof fn cleaning_goes_by_use(v: KnownView, at: u64, now: u64, has_path: bool)
    ensures
        has_path ==> !is_stale(v, now, has_path),
        v.uses == DestinationUses::Retained ==> !is_stale(v, now, has_path),
        !has_path && v.uses == DestinationUses::Never ==> (is_stale(v, now, has_path) <==> now
            - v.time > 6 * 60 * 4_194_304),
        !has_path && v.uses == DestinationUses::LastUsed(at) ==> (is_stale(v, now, has_path) <==> now
            - at > 756_000 * 4_194_304),
{
}

/// A destination stays with the answer that there is a path, and when it is kept or fresh; it goes
/// when it is old and the answer can only be that there is none.
pub proof fn answers_decide_on_old_ones<F: Fn(&AddressHash) -> bool>(
    has_path: F,
    hash: AddressHash,
    v: KnownView,
    at: u64,
    now: u64,
    gone: bool,
)
    requires
        is_judged(has_path, hash, v, now, gone),
    ensures
        gone ==> has_path.ensures((&hash,), false),
        v.uses == DestinationUses::Retained ==> !gone,
        v.uses == DestinationUses::Never && now - v.time <= 6 * 60 * 4_194_304 ==> !gone,
        v.uses == DestinationUses::Never && now - v.time > 6 * 60 * 4_194_304 && !gone
            ==> has_path.ensures((&hash,), true),
        v.uses == DestinationUses::LastUsed(at) && now - at <= 756_000 * 4_194_304 ==> !gone,
        v.uses == DestinationUses::LastUsed(at) && now - at > 756_000 * 4_194_304 && !gone
            ==> has_path.ensures((&hash,), true),
{
    let answer = choose|answer: bool| #[trigger]
        has_path.ensures((&hash,), answer) && gone == is_stale(v, now, answer);
    assert(has_path.ensures((&hash,), answer));
}

/// Using the data of a destination is recorded, unless it is kept; nothing else of it changes, and
/// no other destination does.
pub proof fn use_is_recorded(store: StoreView, hash: AddressHash, now: u64, other: AddressHash)
    ensures
        ({
            let (after, used) = after_use(store, hash, now);
            &&& used <==> store.entries.contains_key(hash) && store.entries[hash].uses
                != DestinationUses::Retained
            &&& !used ==> after == store
            &&& used ==> after.dirty
            &&& used ==> after.entries[hash] == (KnownView {
                uses: DestinationUses::LastUsed(now),
                ..store.entries[hash]
            })
            &&& after.entries.contains_key(other) == store.entries.contains_key(other)
            &&& other != hash && store.entries.contains_key(other) ==> after.entries[other]
                == store.entries[other]
        }),
{
}

/// Keeping a destination and keeping it no longer works on known ones only, and changes nothing but
/// its use.
pub proof fn keeping_changes_the_use_only(
    store: StoreView,
    hash: AddressHash,
    uses: DestinationUses,
    other: AddressHash,
)
    ensures
        ({
            let (after, known) = after_set_uses(store, hash, uses);
            &&& known <==> store.entries.contains_key(hash)
            &&& !known ==> after == store
            &&& known ==> after.dirty
            &&& known ==> after.entries[hash] == (KnownView { uses, ..store.entries[hash] })
            &&& after.entries.contains_key(other) == store.entries.contains_key(other)
            &&& other != hash && store.entries.contains_key(other) ==> after.entries[other]
                == store.entries[other]
        }),
{
}

/// A destination that is kept and then no longer kept counts as used at that time: it goes a week
/// and a quarter later, if there is no path then.
pub proof fn released_destinations_count_as_used(
    store: StoreView,
    hash: AddressHash,
    at: u64,
    now: u64,
)
    requires
        store.entries.contains_key(hash),
    ensures
        ({
            let kept = after_set_uses(store, hash, DestinationUses::Retained).0;
            let released = after_set_uses(kept, hash, DestinationUses::LastUsed(at)).0;
            is_stale(released.entries[hash], now, false) <==> now - at > 756_000 * 4_194_304
        }),
{
}

/// Keeping an identity keeps the destinations whose keys hash to it, and no others; they stay known
/// with all else that is known of them.
pub proof fn identities_are_kept(
    store: StoreView,
    identity_hash: AddressHash,
    hash: AddressHash,
)
    requires
        store.entries.contains_key(hash),
    ensures
        ({
            let (after, any) = after_retain_identity(store, identity_hash);
            let belongs = identity::identity_address(store.entries[hash].public_key)
                == identity_hash@;
            &&& after.entries.contains_key(hash)
            &&& belongs ==> any && after.dirty
            &&& belongs ==> after.entries[hash] == (KnownView {
                uses: DestinationUses::Retained,
                ..store.entries[hash]
            })
            &&& !belongs ==> after.entries[hash] == store.entries[hash]
            &&& any ==> exists|h: AddressHash|
                #[trigger] store.entries.contains_key(h) && identity::identity_address(
                    store.entries[h].public_key,
                ) == identity_hash@
            &&& !any ==> after.dirty == store.dirty
        }),
{
}

/// A listing holds every destination once, in the order of the addresses, with what is known of it.
pub proof fn listings_hold_every_destination(
    list: Seq<(AddressHash, KnownView)>,
    entries: Map<AddressHash, KnownView>,
    hash: AddressHash,
    i: int,
    j: int,
)
    requires
        is_listing(list, entries),
        0 <= i < j < list.len(),
    ensures
        entries.contains_key(list[i].0) && entries[list[i].0] == list[i].1,
        entries.contains_key(list[j].0) && entries[list[j].0] == list[j].1,
        entries.contains_key(hash) ==> exists|k: int|
            0 <= k < list.len() && (#[trigger] list[k]).0 == hash,
        before(list[i].0.code(), list[j].0.code()),
{
    let codes = list.map_values(|e: (AddressHash, KnownView)| e.0.code());
    assert(codes[i] == list[i].0.code() && codes[j] == list[j].0.code());
    assert(before(codes[i], codes[j]));
}

} // verus!
