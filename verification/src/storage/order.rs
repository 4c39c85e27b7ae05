//! The order in which names and addresses are listed.

use vstd::prelude::*;

use crate::hash::AddressHash;
use crate::text;

verus! {

/// Whether `a` comes before `b` in lexicographic order, given that the first `i` places agree.
pub open spec fn before_from(a: Seq<int>, b: Seq<int>, i: int) -> bool
    decreases a.len() - i,
{
    if i >= b.len() {
        false
    } else if i >= a.len() {
        true
    } else if a[i] != b[i] {
        a[i] < b[i]
    } else {
        before_from(a, b, i + 1)
    }
}

/// Whether `a` comes before `b` in lexicographic order.
pub open spec fn before(a: Seq<int>, b: Seq<int>) -> bool {
    before_from(a, b, 0)
}

/// What is listed in order.
pub trait Ordered {
    /// What the order goes by.
    spec fn code(&self) -> Seq<int>;

    /// Whether this comes before another.
    fn precedes(&self, other: &Self) -> (r: bool)
        ensures
            r == before(self.code(), other.code()),
    ;
}

/// A text as numbers.
pub open spec fn text_code(text: Seq<char>) -> Seq<int> {
    text.map_values(|c: char| c as int)
}

impl Ordered for String {
    open spec fn code(&self) -> Seq<int> {
        text_code(self@)
    }

    fn precedes(&self, other: &Self) -> (r: bool) {
        let a: Vec<char> = text::characters(self.as_str());
        let b: Vec<char> = text::characters(other.as_str());
        let mut i: usize = 0;
        while i < a.len() && i < b.len() && a[i] == b[i]
            invariant
                i <= a@.len(),
                i <= b@.len(),
                a@ == self@,
                b@ == other@,
                before(self.code(), other.code()) == before_from(
                    self.code(),
                    other.code(),
                    i as int,
                ),
            decreases a@.len() - i,
        {
            i += 1;
        }
        if i >= b.len() {
            false
        } else if i >= a.len() {
            true
        } else {
            a[i] < b[i]
        }
    }
}

impl Ordered for AddressHash {
    open spec fn code(&self) -> Seq<int> {
        self@.map_values(|b: u8| b as int)
    }

    fn precedes(&self, other: &Self) -> (r: bool) {
        let mut i: usize = 0;
        while i < 16 && self.0[i] == other.0[i]
            invariant
                i <= 16,
                before(self.code(), other.code()) == before_from(
                    self.code(),
                    other.code(),
                    i as int,
                ),
            decreases 16 - i,
        {
            i += 1;
        }
        i < 16 && self.0[i] < other.0[i]
    }
}

/// Nothing comes before itself.
proof fn before_irreflexive(a: Seq<int>, i: int)
    requires
        0 <= i,
    ensures
        !before_from(a, a, i),
    decreases a.len() - i,
{
    if i < a.len() {
        before_irreflexive(a, i + 1);
    }
}

/// The order is transitive.
proof fn before_transitive(a: Seq<int>, b: Seq<int>, c: Seq<int>, i: int)
    requires
        0 <= i,
        before_from(a, b, i),
        before_from(b, c, i),
    ensures
        before_from(a, c, i),
    decreases a.len() - i,
{
    if i < a.len() && a[i] == b[i] && b[i] == c[i] {
        before_transitive(a, b, c, i + 1);
    }
}

/// Of two that differ, one comes before the other.
proof fn before_total(a: Seq<int>, b: Seq<int>, i: int)
    requires
        0 <= i <= a.len(),
        i <= b.len(),
        a.take(i) == b.take(i),
        a != b,
    ensures
        before_from(a, b, i) || before_from(b, a, i),
    decreases a.len() - i,
{
    if i < a.len() && i < b.len() && a[i] == b[i] {
        assert(a.take(i + 1) =~= a.take(i).push(a[i]));
        assert(b.take(i + 1) =~= b.take(i).push(b[i]));
        before_total(a, b, i + 1);
    } else if i >= a.len() && i >= b.len() {
        assert(a =~= a.take(i));
        assert(b =~= b.take(i));
    }
}

/// Whether a list is in strictly increasing order.
pub open spec fn increasing(codes: Seq<Seq<int>>) -> bool {
    forall|i: int, j: int|
        0 <= i < j < codes.len() ==> before(#[trigger] codes[i], #[trigger] codes[j])
}

/// What the order of a list goes by.
pub open spec fn codes_of<K: Ordered>(items: Seq<K>) -> Seq<Seq<int>> {
    items.map_values(|k: K| k.code())
}

/// Puts an item at its place in a list.
pub fn place<K: Ordered>(items: &mut Vec<K>, item: K) -> (r: usize)
    requires
        increasing(codes_of(old(items)@)),
        !codes_of(old(items)@).contains(item.code()),
    ensures
        r <= old(items)@.len(),
        final(items)@ == old(items)@.insert(r as int, item),
        increasing(codes_of(final(items)@)),
{
    let ghost start = codes_of(items@);
    let mut i: usize = 0;
    while i < items.len() && items[i].precedes(&item)
        invariant
            i <= items@.len(),
            items@ == old(items)@,
            start == codes_of(items@),
            forall|k: int| 0 <= k < i ==> before(#[trigger] start[k], item.code()),
        decreases items@.len() - i,
    {
        i += 1;
    }
    proof {
        let code = item.code();
        assert forall|k: int| i <= k < start.len() implies before(code, #[trigger] start[k]) by {
            assert(start.contains(start[i as int]));
            assert(start[i as int].take(0) =~= code.take(0));
            before_total(start[i as int], code, 0);
            if k > i {
                before_transitive(code, start[i as int], start[k], 0);
            }
        }
        let next = start.insert(i as int, code);
        assert(codes_of(items@.insert(i as int, item)) =~= next);
        assert forall|a: int, b: int| 0 <= a < b < next.len() implies before(
            #[trigger] next[a],
            #[trigger] next[b],
        ) by {
            let x = if a < i {
                a
            } else {
                a - 1
            };
            let y = if b < i {
                b
            } else {
                b - 1
            };
            if a == i {
                assert(next[b] == start[y]);
            } else if b == i {
                assert(next[a] == start[x]);
            } else {
                assert(next[a] == start[x] && next[b] == start[y]);
            }
        }
    }
    items.insert(i, item);
    i
}

/// No item of an increasing list occurs twice.
pub proof fn increasing_is_distinct(codes: Seq<Seq<int>>, i: int, j: int)
    requires
        increasing(codes),
        0 <= i < j < codes.len(),
    ensures
        codes[i] != codes[j],
{
    before_irreflexive(codes[i], 0);
}

/// Two increasing lists of the same items are the same list.
pub proof fn increasing_is_unique(a: Seq<Seq<int>>, b: Seq<Seq<int>>)
    requires
        increasing(a),
        increasing(b),
        forall|code: Seq<int>| a.contains(code) <==> b.contains(code),
    ensures
        a == b,
    decreases a.len(),
{
    if a.len() == 0 || b.len() == 0 {
        if a.len() > 0 {
            assert(a.contains(a[0]));
        }
        if b.len() > 0 {
            assert(b.contains(b[0]));
        }
        assert(a =~= b);
    } else {
        last_is_greatest(a);
        last_is_greatest(b);
        assert(a.contains(a.last()));
        assert(b.contains(b.last()));
        assert(a.last() == b.last()) by {
            if a.last() != b.last() {
                before_transitive(a.last(), b.last(), a.last(), 0);
                before_irreflexive(a.last(), 0);
            }
        }
        let x = a.drop_last();
        let y = b.drop_last();
        assert forall|code: Seq<int>| x.contains(code) <==> y.contains(code) by {
            without_last(a, code);
            without_last(b, code);
        }
        increasing_is_unique(x, y);
        assert(a =~= x.push(a.last()));
        assert(b =~= y.push(b.last()));
    }
}

/// Every other item of an increasing list comes before its last.
proof fn last_is_greatest(a: Seq<Seq<int>>)
    requires
        increasing(a),
        a.len() > 0,
    ensures
        forall|code: Seq<int>| a.contains(code) && code != a.last() ==> before(code, a.last()),
{
    assert forall|code: Seq<int>| a.contains(code) && code != a.last() implies before(
        code,
        a.last(),
    ) by {
        let i = choose|i: int| 0 <= i < a.len() && a[i] == code;
        assert(before(a[i], a[a.len() - 1]));
    }
}

/// An increasing list without its last item holds the others.
proof fn without_last(a: Seq<Seq<int>>, code: Seq<int>)
    requires
        increasing(a),
        a.len() > 0,
    ensures
        a.drop_last().contains(code) <==> a.contains(code) && code != a.last(),
        increasing(a.drop_last()),
{
    let x = a.drop_last();
    assert forall|i: int, j: int| 0 <= i < j < x.len() implies before(
        #[trigger] x[i],
        #[trigger] x[j],
    ) by {
        assert(before(a[i], a[j]));
    }
    if x.contains(code) {
        let i = choose|i: int| 0 <= i < x.len() && x[i] == code;
        assert(a[i] == code);
        assert(before(a[i], a[a.len() - 1]));
        before_irreflexive(code, 0);
    }
    if a.contains(code) && code != a.last() {
        let i = choose|i: int| 0 <= i < a.len() && a[i] == code;
        assert(x[i] == code);
    }
}

} // verus!
