//! A small map that keeps its entries in the order in which their keys were first inserted.

use vstd::prelude::*;

use crate::hash::AddressHash;

verus! {

/// A key that can be compared.
pub trait TableKey: Copy {
    /// Whether two keys are equal.
    fn same(&self, other: &Self) -> (r: bool)
        ensures
            r == (*self == *other),
    ;
}

impl TableKey for AddressHash {
    fn same(&self, other: &Self) -> (r: bool) {
        AddressHash::same(self, other)
    }
}

impl TableKey for crate::hash::Hash {
    fn same(&self, other: &Self) -> (r: bool) {
        crate::hash::Hash::same(self, other)
    }
}

/// A map from keys to values.
#[derive(Debug)]
pub struct Table<K, V> {
    entries: Vec<(K, V)>,
}

/// The map that a list of entries stands for.
pub open spec fn entries_map<K, V>(entries: Seq<(K, V)>) -> Map<K, V>
    decreases entries.len(),
{
    if entries.len() == 0 {
        Map::empty()
    } else {
        entries_map(entries.drop_last()).insert(entries.last().0, entries.last().1)
    }
}

/// No key occurs twice.
pub open spec fn keys_unique<K, V>(entries: Seq<(K, V)>) -> bool {
    forall|i: int, j: int|
        0 <= i < j < entries.len() ==> (#[trigger] entries[i]).0 != (#[trigger] entries[j]).0
}

/// The map has exactly the keys that occur, each with the value next to it.
pub proof fn entries_map_get<K, V>(entries: Seq<(K, V)>, key: K)
    requires
        keys_unique(entries),
    ensures
        entries_map(entries).dom().contains(key) <==> exists|i: int|
            0 <= i < entries.len() && (#[trigger] entries[i]).0 == key,
        forall|i: int|
            0 <= i < entries.len() && (#[trigger] entries[i]).0 == key ==> entries_map(
                entries,
            )[key] == entries[i].1,
    decreases entries.len(),
{
    if entries.len() > 0 {
        let head = entries.drop_last();
        entries_map_get(head, key);
        assert forall|i: int| 0 <= i < head.len() implies head[i] == (#[trigger] entries[i]) by {}
        if entries_map(entries).dom().contains(key) {
            if entries.last().0 == key {
                assert(entries[entries.len() - 1].0 == key);
            } else {
                let i = choose|i: int| 0 <= i < head.len() && (#[trigger] head[i]).0 == key;
                assert(entries[i].0 == key);
            }
        }
        if exists|i: int| 0 <= i < entries.len() && (#[trigger] entries[i]).0 == key {
            let i = choose|i: int| 0 <= i < entries.len() && (#[trigger] entries[i]).0 == key;
            if i < head.len() {
                assert(head[i].0 == key);
            }
        }
        assert forall|i: int|
            0 <= i < entries.len() && (#[trigger] entries[i]).0 == key implies entries_map(
            entries,
        )[key] == entries[i].1 by {
            if i < head.len() {
                assert(head[i].0 == key);
                assert(entries[i].0 != entries[entries.len() - 1].0);
            }
        }
    }
}

impl<K, V> View for Table<K, V> {
    type V = Map<K, V>;

    closed spec fn view(&self) -> Map<K, V> {
        entries_map(self.entries@)
    }
}

impl<K: TableKey, V> Table<K, V> {
    /// No key occurs twice.
    pub closed spec fn wf(&self) -> bool {
        keys_unique(self.entries@)
    }

    /// The keys in insertion order.
    pub closed spec fn keys(&self) -> Seq<K> {
        self.entries@.map_values(|e: (K, V)| e.0)
    }

    /// The keys are those of the map, each once.
    pub proof fn keys_are_domain(&self)
        requires
            self.wf(),
        ensures
            self.keys().no_duplicates(),
            forall|k: K| self.keys().contains(k) <==> self@.dom().contains(k),
    {
        assert forall|k: K| self.keys().contains(k) <==> self@.dom().contains(k) by {
            entries_map_get(self.entries@, k);
            if self.keys().contains(k) {
                let i = choose|i: int| 0 <= i < self.keys().len() && self.keys()[i] == k;
                assert(self.entries@[i].0 == k);
            }
            if self@.dom().contains(k) {
                let i = choose|i: int|
                    0 <= i < self.entries@.len() && (#[trigger] self.entries@[i]).0 == k;
                assert(self.keys()[i] == k);
            }
        }
        assert forall|i: int, j: int|
            0 <= i < self.keys().len() && 0 <= j < self.keys().len() && i != j implies self.keys()[i]
            != self.keys()[j] by {
            if i < j {
                assert(self.entries@[i].0 != self.entries@[j].0);
            } else {
                assert(self.entries@[j].0 != self.entries@[i].0);
            }
        }
    }

    /// An empty table.
    pub fn new() -> (r: Self)
        ensures
            r.wf(),
            r@ == Map::<K, V>::empty(),
            r.keys() == Seq::<K>::empty(),
    {
        let r: Table<K, V> = Table { entries: Vec::new() };
        assert(r.keys() =~= Seq::<K>::empty());
        r
    }

    /// The number of entries.
    pub fn len(&self) -> (r: usize)
        ensures
            r == self.keys().len(),
    {
        self.entries.len()
    }

    /// The key of the `i`-th entry.
    pub fn key_at(&self, i: usize) -> (r: K)
        requires
            self.wf(),
            i < self.keys().len(),
        ensures
            r == self.keys()[i as int],
            self@.dom().contains(r),
    {
        proof {
            entries_map_get(self.entries@, self.entries@[i as int].0);
        }
        self.entries[i].0
    }

    /// Where the entry with this key is.
    fn position(&self, key: &K) -> (r: Option<usize>)
        requires
            self.wf(),
        ensures
            r is Some <==> self@.dom().contains(*key),
            r is Some ==> r->0 < self.entries@.len() && self.entries@[r->0 as int].0 == *key
                && self.entries@[r->0 as int].1 == self@[*key],
    {
        proof {
            entries_map_get(self.entries@, *key);
        }
        let mut i: usize = 0;
        while i < self.entries.len()
            invariant
                self.wf(),
                i <= self.entries@.len(),
                forall|j: int| 0 <= j < i ==> (#[trigger] self.entries@[j]).0 != *key,
            decreases self.entries@.len() - i,
        {
            if self.entries[i].0.same(key) {
                proof {
                    entries_map_get(self.entries@, *key);
                }
                return Some(i);
            }
            i += 1;
        }
        None
    }

    /// Whether there is an entry with this key.
    pub fn contains(&self, key: &K) -> (r: bool)
        requires
            self.wf(),
        ensures
            r == self@.dom().contains(*key),
    {
        self.position(key).is_some()
    }

    /// The value of the entry with this key.
    pub fn get(&self, key: &K) -> (r: Option<&V>)
        requires
            self.wf(),
        ensures
            r is Some <==> self@.dom().contains(*key),
            r is Some ==> *r->0 == self@[*key],
    {
        match self.position(key) {
            Some(i) => Some(&self.entries[i].1),
            None => None,
        }
    }

    /// Sets the value of a key.
    pub fn insert(&mut self, key: K, value: V)
        requires
            old(self).wf(),
        ensures
            final(self).wf(),
            final(self)@ == old(self)@.insert(key, value),
            final(self).keys() == (if old(self)@.dom().contains(key) {
                old(self).keys()
            } else {
                old(self).keys().push(key)
            }),
    {
        let ghost before = self.entries@;
        let found: Option<usize> = self.position(&key);
        proof {
            entries_map_get(before, key);
        }
        match found {
            Some(i) => {
                self.entries.set(i, (key, value));
                proof {
                    entries_update(before, i as int, value);
                    assert(self.entries@ =~= before.update(i as int, (before[i as int].0, value)));
                    assert(self.keys() =~= old(self).keys());
                }
            },
            None => {
                self.entries.push((key, value));
                proof {
                    assert(self.entries@.drop_last() =~= before);
                    assert(keys_unique(self.entries@)) by {
                        assert forall|i: int, j: int|
                            0 <= i < j < self.entries@.len() implies (#[trigger] self.entries@[i]).0
                            != (#[trigger] self.entries@[j]).0 by {
                            if j == before.len() {
                                assert(before[i].0 != key);
                            } else {
                                assert(before[i].0 != before[j].0);
                            }
                        }
                    }
                    assert(self.keys() =~= old(self).keys().push(key));
                }
            },
        }
    }

    /// The value of the entry with this key, for changing it.
    pub fn get_mut(&mut self, key: &K) -> (r: Option<&mut V>)
        requires
            old(self).wf(),
        ensures
            r is Some <==> old(self)@.dom().contains(*key),
            match r {
                Some(value) => {
                    &&& *value == old(self)@[*key]
                    &&& final(self).wf()
                    &&& final(self)@ == old(self)@.insert(*key, *final(value))
                    &&& final(self).keys() == old(self).keys()
                },
                None => *final(self) == *old(self),
            },
    {
        let ghost before = self.entries@;
        match self.position(key) {
            Some(i) => {
                proof {
                    entries_update_any(before, i as int);
                }
                Some(&mut self.entries[i].1)
            },
            None => None,
        }
    }

    /// Removes the entry with this key and returns its value.
    pub fn remove(&mut self, key: &K) -> (r: Option<V>)
        requires
            old(self).wf(),
        ensures
            final(self).wf(),
            final(self)@ == old(self)@.remove(*key),
            r is Some <==> old(self)@.dom().contains(*key),
            r is Some ==> r->0 == old(self)@[*key],
    {
        let ghost before = self.entries@;
        match self.position(key) {
            Some(i) => {
                let entry: (K, V) = self.entries.remove(i);
                proof {
                    entries_remove(before, i as int);
                }
                Some(entry.1)
            },
            None => {
                assert(self@ =~= old(self)@.remove(*key));
                None
            },
        }
    }
}

/// Changing the value of an entry changes the value of its key.
proof fn entries_update<K, V>(entries: Seq<(K, V)>, i: int, value: V)
    requires
        keys_unique(entries),
        0 <= i < entries.len(),
    ensures
        keys_unique(entries.update(i, (entries[i].0, value))),
        entries_map(entries.update(i, (entries[i].0, value))) == entries_map(entries).insert(
            entries[i].0,
            value,
        ),
    decreases entries.len(),
{
    let key = entries[i].0;
    let after = entries.update(i, (key, value));
    assert forall|a: int, b: int| 0 <= a < b < after.len() implies (#[trigger] after[a]).0 != (
    #[trigger] after[b]).0 by {
        assert(entries[a].0 != entries[b].0);
    }
    let head = entries.drop_last();
    if i == entries.len() - 1 {
        assert(after.drop_last() =~= head);
        assert(entries_map(after) =~= entries_map(entries).insert(key, value));
    } else {
        assert(keys_unique(head)) by {
            assert forall|a: int, b: int| 0 <= a < b < head.len() implies (#[trigger] head[a]).0
                != (#[trigger] head[b]).0 by {
                assert(entries[a].0 != entries[b].0);
            }
        }
        entries_update(head, i, value);
        assert(after.drop_last() =~= head.update(i, (key, value)));
        assert(entries[i].0 != entries[entries.len() - 1].0);
        assert(entries_map(after) =~= entries_map(entries).insert(key, value));
    }
}

/// Removing an entry removes its key.
proof fn entries_remove<K, V>(entries: Seq<(K, V)>, i: int)
    requires
        keys_unique(entries),
        0 <= i < entries.len(),
    ensures
        keys_unique(entries.remove(i)),
        entries_map(entries.remove(i)) == entries_map(entries).remove(entries[i].0),
    decreases entries.len(),
{
    let key = entries[i].0;
    let after = entries.remove(i);
    assert forall|a: int, b: int| 0 <= a < b < after.len() implies (#[trigger] after[a]).0 != (
    #[trigger] after[b]).0 by {
        let x = if a < i {
            a
        } else {
            a + 1
        };
        let y = if b < i {
            b
        } else {
            b + 1
        };
        assert(entries[x].0 != entries[y].0);
    }
    let head = entries.drop_last();
    assert(keys_unique(head)) by {
        assert forall|a: int, b: int| 0 <= a < b < head.len() implies (#[trigger] head[a]).0 != (
        #[trigger] head[b]).0 by {
            assert(entries[a].0 != entries[b].0);
        }
    }
    if i == entries.len() - 1 {
        assert(after =~= head);
        entries_map_get(head, key);
        assert(!entries_map(head).dom().contains(key)) by {
            if entries_map(head).dom().contains(key) {
                let k = choose|k: int| 0 <= k < head.len() && (#[trigger] head[k]).0 == key;
                assert(entries[k].0 != entries[i].0);
            }
        }
        assert(entries_map(after) =~= entries_map(entries).remove(key));
    } else {
        entries_remove(head, i);
        assert(after.drop_last() =~= head.remove(i));
        assert(after.last() == entries.last());
        assert(entries[i].0 != entries[entries.len() - 1].0);
        assert(entries_map(after) =~= entries_map(entries).remove(key));
    }
}

/// Changing the value of an entry to any other changes the value of its key, and no key.
proof fn entries_update_any<K, V>(entries: Seq<(K, V)>, i: int)
    requires
        keys_unique(entries),
        0 <= i < entries.len(),
    ensures
        forall|value: V|
            #![trigger entries.update(i, (entries[i].0, value))]
            {
                let next = entries.update(i, (entries[i].0, value));
                &&& keys_unique(next)
                &&& entries_map(next) == entries_map(entries).insert(entries[i].0, value)
                &&& next.map_values(|e: (K, V)| e.0) == entries.map_values(|e: (K, V)| e.0)
            },
{
    assert forall|value: V|
        #![trigger entries.update(i, (entries[i].0, value))]
        {
            let next = entries.update(i, (entries[i].0, value));
            &&& keys_unique(next)
            &&& entries_map(next) == entries_map(entries).insert(entries[i].0, value)
            &&& next.map_values(|e: (K, V)| e.0) == entries.map_values(|e: (K, V)| e.0)
        } by {
        entries_update(entries, i, value);
        assert(entries.update(i, (entries[i].0, value)).map_values(|e: (K, V)| e.0)
            =~= entries.map_values(|e: (K, V)| e.0));
    }
}

} // verus!
