//! Where files are kept.

use vstd::prelude::*;

use crate::bytes;
use crate::error::RnsError;
use crate::storage::order;
use crate::storage::order::{place, Ordered};
use crate::text;

verus! {

/// The path of a file in a directory.
pub open spec fn path_in(dir: Seq<char>, name: Seq<char>) -> Seq<char> {
    dir.push('/') + name
}

/// A place for files. What it holds changes only through these methods.
pub trait Storage {
    /// The files by path.
    spec fn files(&self) -> Map<Seq<char>, Seq<u8>>;

    /// What the backend needs to work.
    spec fn wf(&self) -> bool;

    /// Reads a file; none when it does not exist.
    fn read(&self, path: &str) -> (r: Option<Vec<u8>>)
        requires
            self.wf(),
        ensures
            r is Some <==> self.files().contains_key(path@),
            r is Some ==> r->0@ == self.files()[path@],
    ;

    /// Writes a file, creating or replacing it.
    fn write(&mut self, path: &str, data: &[u8]) -> (r: Result<(), RnsError>)
        requires
            old(self).wf(),
        ensures
            final(self).wf(),
            r is Ok ==> final(self).files() == old(self).files().insert(path@, data@),
    ;

    /// Lists the names of the files in a directory, in order.
    fn list(&self, dir: &str) -> (r: Vec<String>)
        requires
            self.wf(),
        ensures
            order::increasing(order::codes_of(r@)),
            forall|i: int|
                0 <= i < r@.len() ==> self.files().contains_key(
                    path_in(dir@, #[trigger] r@[i]@),
                ),
            forall|name: Seq<char>|
                #[trigger] self.files().contains_key(path_in(dir@, name)) && !name.contains('/')
                    ==> exists|i: int| 0 <= i < r@.len() && (#[trigger] r@[i])@ == name,
    ;

    /// Removes a file; false when it does not exist.
    fn remove(&mut self, path: &str) -> (r: bool)
        requires
            old(self).wf(),
        ensures
            final(self).wf(),
            r == old(self).files().contains_key(path@),
            final(self).files() == old(self).files().remove(path@),
    ;
}

/// Joins a directory and a name.
pub fn join_path(dir: &str, name: &str) -> (r: String)
    ensures
        r@ == path_in(dir@, name@),
{
    let mut r: String = dir.to_owned();
    text::push_char(&mut r, '/');
    r.append(name);
    r
}

/// The length of a text without the slashes at its end.
pub open spec fn without_slashes(text: Seq<char>, n: int) -> int
    decreases n,
{
    if n > 0 && text[n - 1] == '/' {
        without_slashes(text, n - 1)
    } else {
        n
    }
}

/// Where files lie in a file system.
#[derive(Debug)]
pub struct FsStorage {
    /// The directory that paths are relative to.
    pub base: String,
}

impl FsStorage {
    /// A place under a directory.
    pub fn new(base: &str) -> (r: Self)
        ensures
            r.base@ == base@,
    {
        FsStorage { base: base.to_owned() }
    }

    /// The whole path of a file.
    pub fn full(&self, path: &str) -> (r: String)
        ensures
            r@ == path_in(
                self.base@.take(without_slashes(self.base@, self.base@.len() as int)),
                path@,
            ),
    {
        let chars: Vec<char> = text::characters(self.base.as_str());
        let mut n: usize = chars.len();
        while n > 0 && chars[n - 1] == '/'
            invariant
                n <= chars@.len(),
                chars@ == self.base@,
                without_slashes(self.base@, self.base@.len() as int) == without_slashes(
                    self.base@,
                    n as int,
                ),
            decreases n,
        {
            n -= 1;
        }
        let kept: &[char] = &chars[0..n];
        assert(kept@ =~= self.base@.take(n as int));
        let base: String = text::to_text(kept);
        join_path(base.as_str(), path)
    }

    /// The path that a file is written to before it is moved to its own.
    pub fn temporary(&self, path: &str) -> (r: String)
        ensures
            r@ == path_in(
                self.base@.take(without_slashes(self.base@, self.base@.len() as int)),
                path@,
            ) + ".tmp"@,
    {
        let mut r: String = self.full(path);
        r.append(".tmp");
        r
    }
}

/// Files that are kept in memory.
#[derive(Debug)]
pub struct MemoryStorage {
    files: Vec<(String, Vec<u8>)>,
}

/// Whether the file at `i` has this path.
spec fn is_at(files: Seq<(String, Vec<u8>)>, path: Seq<char>, i: int) -> bool {
    0 <= i < files.len() && files[i].0@ == path
}

/// No path occurs twice.
spec fn paths_unique(files: Seq<(String, Vec<u8>)>) -> bool {
    forall|i: int, j: int|
        0 <= i < j < files.len() ==> (#[trigger] files[i]).0@ != (#[trigger] files[j]).0@
}

/// The files by path.
spec fn by_path(files: Seq<(String, Vec<u8>)>) -> Map<Seq<char>, Seq<u8>> {
    Map::new(
        |path: Seq<char>| exists|i: int| is_at(files, path, i),
        |path: Seq<char>| files[choose|i: int| is_at(files, path, i)].1@,
    )
}

/// A file is what the map says.
proof fn by_path_at(files: Seq<(String, Vec<u8>)>, i: int)
    requires
        paths_unique(files),
        0 <= i < files.len(),
    ensures
        by_path(files).contains_key(files[i].0@),
        by_path(files)[files[i].0@] == files[i].1@,
{
    let path = files[i].0@;
    assert(is_at(files, path, i));
    let k = choose|k: int| is_at(files, path, k);
    if k < i {
        assert(files[k].0@ != files[i].0@);
    } else if i < k {
        assert(files[i].0@ != files[k].0@);
    }
}

impl MemoryStorage {
    /// A place without files.
    pub fn new() -> (r: Self)
        ensures
            r.wf(),
            r.files() == Map::<Seq<char>, Seq<u8>>::empty(),
    {
        let r = MemoryStorage { files: Vec::new() };
        assert(r.files() =~= Map::<Seq<char>, Seq<u8>>::empty());
        r
    }

    /// Where a file is.
    fn position(&self, path: &str) -> (r: Option<usize>)
        requires
            self.wf(),
        ensures
            r is Some <==> self.files().contains_key(path@),
            r is Some ==> is_at(self.files@, path@, r->0 as int),
    {
        let mut i: usize = 0;
        while i < self.files.len()
            invariant
                i <= self.files@.len(),
                forall|k: int| 0 <= k < i ==> !is_at(self.files@, path@, k),
            decreases self.files@.len() - i,
        {
            if text::same_text(self.files[i].0.as_str(), path) {
                assert(is_at(self.files@, path@, i as int));
                return Some(i);
            }
            i += 1;
        }
        None
    }
}

impl Storage for MemoryStorage {
    closed spec fn files(&self) -> Map<Seq<char>, Seq<u8>> {
        by_path(self.files@)
    }

    closed spec fn wf(&self) -> bool {
        paths_unique(self.files@)
    }

    fn read(&self, path: &str) -> (r: Option<Vec<u8>>) {
        match self.position(path) {
            Some(i) => {
                proof {
                    by_path_at(self.files@, i as int);
                }
                Some(bytes::to_vec(&self.files[i].1))
            },
            None => None,
        }
    }

    fn write(&mut self, path: &str, data: &[u8]) -> (r: Result<(), RnsError>)
        ensures
            r is Ok,
    {
        let ghost start = self.files@;
        let found: Option<usize> = self.position(path);
        let file: (String, Vec<u8>) = (path.to_owned(), bytes::to_vec(data));
        match found {
            Some(i) => {
                self.files.set(i, file);
            },
            None => {
                self.files.push(file);
            },
        }
        proof {
            let next = self.files@;
            if found is None {
                assert(forall|k: int| !is_at(start, path@, k));
            }
            assert(paths_unique(next)) by {
                assert forall|a: int, b: int| 0 <= a < b < next.len() implies (
                #[trigger] next[a]).0@ != (#[trigger] next[b]).0@ by {
                    if b < start.len() {
                        assert(start[a].0@ != start[b].0@);
                    } else {
                        assert(!is_at(start, path@, a));
                    }
                }
            }
            assert forall|p: Seq<char>| #[trigger] by_path(next).contains_key(p) <==> by_path(
                start,
            ).insert(path@, data@).contains_key(p) by {
                if by_path(next).contains_key(p) {
                    let i = choose|i: int| is_at(next, p, i);
                    if p != path@ {
                        assert(is_at(start, p, i));
                    }
                }
                if by_path(start).insert(path@, data@).contains_key(p) {
                    if p == path@ {
                        let k = if found is Some {
                            found->0 as int
                        } else {
                            start.len() as int
                        };
                        assert(is_at(next, p, k));
                    } else {
                        let i = choose|i: int| is_at(start, p, i);
                        assert(is_at(next, p, i));
                    }
                }
            }
            assert forall|p: Seq<char>| #[trigger] by_path(next).contains_key(p) implies by_path(
                next,
            )[p] == by_path(start).insert(path@, data@)[p] by {
                if p != path@ {
                    let i = choose|i: int| is_at(next, p, i);
                    by_path_at(next, i);
                    by_path_at(start, i);
                } else if found is Some {
                    by_path_at(next, found->0 as int);
                } else {
                    by_path_at(next, start.len() as int);
                }
            }
            assert(by_path(next) =~= by_path(start).insert(path@, data@));
        }
        Ok(())
    }

    fn list(&self, dir: &str) -> (r: Vec<String>)
        ensures
            forall|name: Seq<char>|
                #[trigger] self.files().contains_key(path_in(dir@, name)) ==> exists|i: int|
                    0 <= i < r@.len() && (#[trigger] r@[i])@ == name,
    {
        let prefix: Vec<char> = text::characters(join_path(dir, "").as_str());
        proof {
            reveal_strlit("");
            assert(prefix@ =~= dir@.push('/'));
        }
        let mut r: Vec<String> = Vec::new();
        let mut n: usize = 0;
        while n < self.files.len()
            invariant
                self.wf(),
                n <= self.files@.len(),
                prefix@ == dir@.push('/'),
                order::increasing(order::codes_of(r@)),
                forall|i: int|
                    0 <= i < r@.len() ==> listed(self.files@, dir@, #[trigger] r@[i]@, n as int),
                forall|k: int, name: Seq<char>|
                    0 <= k < n && (#[trigger] self.files@[k]).0@ == #[trigger] path_in(dir@, name)
                        ==> exists|i: int| 0 <= i < r@.len() && (#[trigger] r@[i])@ == name,
            decreases self.files@.len() - n,
        {
            let path: Vec<char> = text::characters(self.files[n].0.as_str());
            let ghost before = r@;
            if starts_with(&path, &prefix) {
                let rest: &[char] = &path[prefix.len()..path.len()];
                let name: String = text::to_text(rest);
                proof {
                    assert(path@ =~= path_in(dir@, name@));
                    if order::codes_of(r@).contains(name.code()) {
                        let i = choose|i: int|
                            0 <= i < r@.len() && order::codes_of(r@)[i] == name.code();
                        same_code(r@[i]@, name@);
                        assert(listed(self.files@, dir@, r@[i]@, n as int));
                        let k = choose|k: int|
                            0 <= k < n && (#[trigger] self.files@[k]).0@ == path_in(dir@, r@[i]@);
                        assert(self.files@[k].0@ != self.files@[n as int].0@);
                    }
                }
                let at: usize = place(&mut r, name);
                proof {
                    assert forall|i: int| 0 <= i < r@.len() implies listed(
                        self.files@,
                        dir@,
                        #[trigger] r@[i]@,
                        n + 1,
                    ) by {
                        if i < at {
                            assert(r@[i] == before[i]);
                            assert(listed(self.files@, dir@, before[i]@, n as int));
                        } else if i > at {
                            assert(r@[i] == before[i - 1]);
                            assert(listed(self.files@, dir@, before[i - 1]@, n as int));
                        } else {
                            assert(self.files@[n as int].0@ == path_in(dir@, r@[i]@));
                        }
                    }
                    assert forall|k: int, other: Seq<char>|
                        0 <= k < n + 1 && (#[trigger] self.files@[k]).0@ == #[trigger] path_in(
                            dir@,
                            other,
                        ) implies exists|i: int| 0 <= i < r@.len() && (#[trigger] r@[i])@
                        == other by {
                        if k < n {
                            let i = choose|i: int|
                                0 <= i < before.len() && (#[trigger] before[i])@ == other;
                            if i < at {
                                assert(r@[i] == before[i]);
                            } else {
                                assert(r@[i + 1] == before[i]);
                            }
                        } else {
                            path_in_injective(dir@, other, name@);
                            assert(r@[at as int]@ == other);
                        }
                    }
                }
            } else {
                proof {
                    assert forall|i: int| 0 <= i < r@.len() implies listed(
                        self.files@,
                        dir@,
                        #[trigger] r@[i]@,
                        n + 1,
                    ) by {
                        assert(listed(self.files@, dir@, r@[i]@, n as int));
                    }
                    assert forall|k: int, other: Seq<char>|
                        0 <= k < n + 1 && (#[trigger] self.files@[k]).0@ == #[trigger] path_in(
                            dir@,
                            other,
                        ) implies exists|i: int| 0 <= i < r@.len() && (#[trigger] r@[i])@
                        == other by {
                        if k == n {
                            assert(path@.take(prefix@.len() as int) =~= prefix@);
                        }
                    }
                }
            }
            n += 1;
        }
        proof {
            assert forall|i: int| 0 <= i < r@.len() implies self.files().contains_key(
                path_in(dir@, #[trigger] r@[i]@),
            ) by {
                assert(listed(self.files@, dir@, r@[i]@, n as int));
                let k = choose|k: int|
                    0 <= k < n && (#[trigger] self.files@[k]).0@ == path_in(dir@, r@[i]@);
                by_path_at(self.files@, k);
            }
            assert forall|name: Seq<char>| #[trigger]
                self.files().contains_key(path_in(dir@, name)) implies exists|i: int|
                0 <= i < r@.len() && (#[trigger] r@[i])@ == name by {
                let k = choose|k: int| is_at(self.files@, path_in(dir@, name), k);
                assert(self.files@[k].0@ == path_in(dir@, name));
            }
        }
        r
    }

    fn remove(&mut self, path: &str) -> (r: bool) {
        let ghost start = self.files@;
        match self.position(path) {
            Some(i) => {
                self.files.remove(i);
                proof {
                    remove_at(start, i as int);
                }
                true
            },
            None => {
                assert(self.files() =~= old(self).files().remove(path@));
                false
            },
        }
    }
}

/// Whether one of the first `n` files has this name in the directory.
spec fn listed(files: Seq<(String, Vec<u8>)>, dir: Seq<char>, name: Seq<char>, n: int) -> bool {
    exists|k: int| 0 <= k < n && (#[trigger] files[k]).0@ == path_in(dir, name)
}

/// Texts that are ordered alike are the same.
proof fn same_code(a: Seq<char>, b: Seq<char>)
    requires
        order::text_code(a) == order::text_code(b),
    ensures
        a == b,
{
    assert(order::text_code(a).len() == a.len());
    assert(order::text_code(b).len() == b.len());
    assert forall|i: int| 0 <= i < a.len() implies a[i] == b[i] by {
        assert(order::text_code(a)[i] == a[i] as int);
        assert(order::text_code(b)[i] == b[i] as int);
    }
    assert(a =~= b);
}

/// Different names in a directory have different paths.
pub proof fn path_in_injective(dir: Seq<char>, a: Seq<char>, b: Seq<char>)
    requires
        path_in(dir, a) == path_in(dir, b),
    ensures
        a == b,
{
    assert(a =~= path_in(dir, a).skip(dir.len() as int + 1));
    assert(b =~= path_in(dir, b).skip(dir.len() as int + 1));
}

/// Whether a text starts with another.
fn starts_with(text: &[char], prefix: &[char]) -> (r: bool)
    ensures
        r == (prefix@.len() <= text@.len() && text@.take(prefix@.len() as int) == prefix@),
{
    if prefix.len() > text.len() {
        return false;
    }
    let mut i: usize = 0;
    while i < prefix.len()
        invariant
            i <= prefix@.len() <= text@.len(),
            forall|k: int| 0 <= k < i ==> text@[k] == prefix@[k],
        decreases prefix@.len() - i,
    {
        if text[i] != prefix[i] {
            assert(text@.take(prefix@.len() as int)[i as int] != prefix@[i as int]);
            return false;
        }
        i += 1;
    }
    assert(text@.take(prefix@.len() as int) =~= prefix@);
    true
}

/// Without one file, its path is gone and nothing else.
proof fn remove_at(files: Seq<(String, Vec<u8>)>, i: int)
    requires
        paths_unique(files),
        0 <= i < files.len(),
    ensures
        paths_unique(files.remove(i)),
        by_path(files.remove(i)) == by_path(files).remove(files[i].0@),
{
    let next = files.remove(i);
    let path = files[i].0@;
    assert forall|a: int, b: int| 0 <= a < b < next.len() implies (#[trigger] next[a]).0@ != (
    #[trigger] next[b]).0@ by {
        let x = if a < i {
            a
        } else {
            a + 1
        };
        let y = if b < i {
            b
        } else {
            b + 1
        };
        assert(files[x].0@ != files[y].0@);
    }
    assert forall|p: Seq<char>| #[trigger] by_path(next).contains_key(p) <==> by_path(files).remove(
        path,
    ).contains_key(p) by {
        if by_path(next).contains_key(p) {
            let k = choose|k: int| is_at(next, p, k);
            let x = if k < i {
                k
            } else {
                k + 1
            };
            assert(is_at(files, p, x));
            if x < i {
                assert(files[x].0@ != files[i].0@);
            } else {
                assert(files[i].0@ != files[x].0@);
            }
        }
        if by_path(files).remove(path).contains_key(p) {
            let k = choose|k: int| is_at(files, p, k);
            let x = if k < i {
                k
            } else {
                k - 1
            };
            assert(is_at(next, p, x));
        }
    }
    assert forall|p: Seq<char>| #[trigger] by_path(next).contains_key(p) implies by_path(next)[p]
        == by_path(files)[p] by {
        let k = choose|k: int| is_at(next, p, k);
        by_path_at(next, k);
        let x = if k < i {
            k
        } else {
            k + 1
        };
        by_path_at(files, x);
    }
    assert(by_path(next) =~= by_path(files).remove(path));
}

} // verus!
