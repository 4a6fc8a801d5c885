//! Hard links over a backend without them: a table from link path to the
//! path of the file that the link names.

use axerrno::LinuxError;
use vstd::prelude::*;

verus! {

/// One link: `path` names the same file as `target`.
pub struct LinkEntry {
    pub path: Vec<u8>,
    pub target: Vec<u8>,
}

/// The process's table of hard links. Each path is tracked at most once.
pub struct HardlinkManager {
    links: Vec<LinkEntry>,
}

/// Whether `a` and `b` hold the same bytes.
pub fn bytes_eq(a: &[u8], b: &[u8]) -> (r: bool)
    ensures
        r == (a@ == b@),
{
    if a.len() != b.len() {
        return false;
    }
    let mut i: usize = 0;
    while i < a.len()
        invariant
            a@.len() == b@.len(),
            i <= a@.len(),
            a@.subrange(0, i as int) == b@.subrange(0, i as int),
        decreases a@.len() - i,
    {
        if a[i] != b[i] {
            assert(a@[i as int] == a@.subrange(0, i + 1)[i as int]);
            assert(b@[i as int] == b@.subrange(0, i + 1)[i as int]);
            return false;
        }
        assert(a@.subrange(0, i + 1) =~= a@.subrange(0, i as int).push(a@[i as int]));
        assert(b@.subrange(0, i + 1) =~= b@.subrange(0, i as int).push(b@[i as int]));
        i = i + 1;
    }
    assert(a@ =~= a@.subrange(0, i as int));
    assert(b@ =~= b@.subrange(0, i as int));
    true
}

fn copy_bytes(a: &[u8]) -> (r: Vec<u8>)
    ensures
        r@ == a@,
{
    let mut out: Vec<u8> = Vec::new();
    let mut i: usize = 0;
    while i < a.len()
        invariant
            i <= a@.len(),
            out@ == a@.subrange(0, i as int),
        decreases a@.len() - i,
    {
        out.push(a[i]);
        i = i + 1;
        assert(out@ =~= a@.subrange(0, i as int));
    }
    assert(out@ =~= a@);
    out
}

/// The path that `path` stands for in `links`: its target where it is a
/// link, else itself.
pub open spec fn resolve_in(links: Map<Seq<u8>, Seq<u8>>, path: Seq<u8>) -> Seq<u8> {
    if links.contains_key(path) {
        links[path]
    } else {
        path
    }
}

impl HardlinkManager {
    pub closed spec fn tracks(&self, p: Seq<u8>) -> bool {
        exists|i: int| 0 <= i < self.links@.len() && (#[trigger] self.links@[i]).path@ == p
    }

    pub closed spec fn index_of(&self, p: Seq<u8>) -> int {
        choose|i: int| 0 <= i < self.links@.len() && (#[trigger] self.links@[i]).path@ == p
    }

    /// Link path to target path.
    pub closed spec fn view(&self) -> Map<Seq<u8>, Seq<u8>> {
        Map::new(|p: Seq<u8>| self.tracks(p), |p: Seq<u8>| self.links@[self.index_of(p)].target@)
    }

    pub closed spec fn wf(&self) -> bool {
        forall|i: int, j: int|
            0 <= i < self.links@.len() && 0 <= j < self.links@.len() && i != j
                ==> (#[trigger] self.links@[i]).path@ != (#[trigger] self.links@[j]).path@
    }

    proof fn lemma_entry(&self, i: int)
        requires
            self.wf(),
            0 <= i < self.links@.len(),
        ensures
            self@.contains_key(self.links@[i].path@),
            self@[self.links@[i].path@] == self.links@[i].target@,
    {
        let p = self.links@[i].path@;
        assert(self.tracks(p));
        let j = self.index_of(p);
        assert(self.links@[j].path@ == p);
    }

    /// An empty table.
    pub fn new() -> (r: HardlinkManager)
        ensures
            r.wf(),
            r@ == Map::<Seq<u8>, Seq<u8>>::empty(),
    {
        let r = HardlinkManager { links: Vec::new() };
        assert(r@ =~= Map::<Seq<u8>, Seq<u8>>::empty());
        r
    }

    fn find(&self, path: &[u8]) -> (r: Option<usize>)
        requires
            self.wf(),
        ensures
            match r {
                Some(i) => i < self.links@.len() && self.links@[i as int].path@ == path@,
                None => !self@.contains_key(path@),
            },
    {
        let mut i: usize = 0;
        while i < self.links.len()
            invariant
                i <= self.links@.len(),
                forall|j: int| 0 <= j < i ==> (#[trigger] self.links@[j]).path@ != path@,
            decreases self.links@.len() - i,
        {
            if bytes_eq(self.links[i].path.as_slice(), path) {
                return Some(i);
            }
            i = i + 1;
        }
        None
    }

    /// Whether `path` is a tracked link.
    pub fn is_link(&self, path: &[u8]) -> (r: bool)
        requires
            self.wf(),
        ensures
            r == self@.contains_key(path@),
    {
        match self.find(path) {
            Some(i) => {
                proof {
                    self.lemma_entry(i as int);
                }
                true
            },
            None => false,
        }
    }

    /// The path of the file that `path` names: the link's target, or `path`
    /// itself where it is no link.
    pub fn resolve(&self, path: &[u8]) -> (r: Vec<u8>)
        requires
            self.wf(),
        ensures
            r@ == resolve_in(self@, path@),
    {
        match self.find(path) {
            Some(i) => {
                proof {
                    self.lemma_entry(i as int);
                }
                copy_bytes(self.links[i].target.as_slice())
            },
            None => copy_bytes(path),
        }
    }

    /// Makes `new_path` name the file that `old_path` names. `old_exists`
    /// is whether the backend has a regular file at `old_path`, `new_exists`
    /// whether it has anything at `new_path`. An existing destination is
    /// never replaced: it fails with `EEXIST` where `new_path` is already a
    /// link or exists in the backend, else with `ENOENT` where `old_path` is
    /// neither a link nor an existing file; the table is then unchanged.
    pub fn create_link(
        &mut self,
        new_path: &[u8],
        old_path: &[u8],
        old_exists: bool,
        new_exists: bool,
    ) -> (r: Result<(), i32>)
        requires
            old(self).wf(),
        ensures
            final(self).wf(),
            old(self)@.contains_key(new_path@) || new_exists ==> r == Err::<(), i32>(17i32),
            !old(self)@.contains_key(new_path@) && !new_exists && !old(self)@.contains_key(
                old_path@,
            ) && !old_exists ==> r == Err::<(), i32>(2i32),
            r is Ok <==> !old(self)@.contains_key(new_path@) && !new_exists && (old(
                self,
            )@.contains_key(old_path@) || old_exists),
            r is Ok ==> final(self)@ == old(self)@.insert(
                new_path@,
                resolve_in(old(self)@, old_path@),
            ),
            r is Err ==> final(self)@ == old(self)@,
    {
        if new_exists || self.is_link(new_path) {
            return Err(LinuxError::EEXIST.code());
        }
        if !old_exists && !self.is_link(old_path) {
            return Err(LinuxError::ENOENT.code());
        }
        let target = self.resolve(old_path);
        let ghost before = *self;
        let entry = LinkEntry { path: copy_bytes(new_path), target };
        self.links.push(entry);
        proof {
            let n = before.links@.len() as int;
            assert forall|i: int, j: int|
                0 <= i < self.links@.len() && 0 <= j < self.links@.len() && i != j implies (
                #[trigger] self.links@[i]).path@ != (#[trigger] self.links@[j]).path@ by {
                if i == n {
                    if before.links@[j].path@ == new_path@ {
                        before.lemma_entry(j);
                    }
                } else if j == n {
                    if before.links@[i].path@ == new_path@ {
                        before.lemma_entry(i);
                    }
                } else {
                    assert(self.links@[i] == before.links@[i]);
                    assert(self.links@[j] == before.links@[j]);
                }
            }
            let want = before@.insert(new_path@, resolve_in(before@, old_path@));
            assert forall|p: Seq<u8>| #[trigger] self@.contains_key(p) <==> want.contains_key(p) by {
                if want.contains_key(p) {
                    if p == new_path@ {
                        assert(self.links@[n].path@ == p);
                    } else {
                        let i = before.index_of(p);
                        assert(self.links@[i] == before.links@[i]);
                    }
                }
                if self@.contains_key(p) {
                    let i = self.index_of(p);
                    if i < n {
                        assert(self.links@[i] == before.links@[i]);
                        before.lemma_entry(i);
                    }
                }
            }
            assert forall|p: Seq<u8>| #[trigger] self@.contains_key(p) implies self@[p] == want[p] by {
                self.lemma_entry(self.index_of(p));
                if p == new_path@ {
                    assert(self.links@[n].path@ == p);
                    self.lemma_entry(n);
                } else {
                    let i = self.index_of(p);
                    assert(self.links@[i] == before.links@[i]);
                    before.lemma_entry(i);
                }
            }
            assert(self@ =~= want);
        }
        Ok(())
    }

    /// Forgets the link `path`. Returns its target, or `None` where `path`
    /// is not a tracked link.
    pub fn remove_link(&mut self, path: &[u8]) -> (r: Option<Vec<u8>>)
        requires
            old(self).wf(),
        ensures
            final(self).wf(),
            match r {
                Some(t) => old(self)@.contains_key(path@) && t@ == old(self)@[path@],
                None => !old(self)@.contains_key(path@),
            },
            final(self)@ == old(self)@.remove(path@),
    {
        match self.find(path) {
            None => {
                assert(self@ =~= self@.remove(path@));
                None
            },
            Some(i) => {
                let ghost before = *self;
                proof {
                    before.lemma_entry(i as int);
                }
                let e = self.links.remove(i);
                proof {
                    let n = before.links@.len() as int;
                    assert forall|a: int| 0 <= a < self.links@.len() implies #[trigger] self.links@[a]
                        == before.links@[if a < i { a } else { a + 1 }] by {}
                    assert forall|a: int, b: int|
                        0 <= a < self.links@.len() && 0 <= b < self.links@.len() && a != b implies (
                        #[trigger] self.links@[a]).path@ != (#[trigger] self.links@[b]).path@ by {
                        let a0 = if a < i { a } else { a + 1 };
                        let b0 = if b < i { b } else { b + 1 };
                        assert(self.links@[a] == before.links@[a0]);
                        assert(self.links@[b] == before.links@[b0]);
                    }
                    let want = before@.remove(path@);
                    assert forall|p: Seq<u8>| #[trigger] self@.contains_key(p) <==> want.contains_key(p) by {
                        if want.contains_key(p) {
                            let j = before.index_of(p);
                            assert(j != i);
                            let a = if j < i { j } else { j - 1 };
                            assert(self.links@[a] == before.links@[j]);
                        }
                        if self@.contains_key(p) {
                            let a = self.index_of(p);
                            let a0 = if a < i { a } else { a + 1 };
                            assert(self.links@[a] == before.links@[a0]);
                            before.lemma_entry(a0);
                        }
                    }
                    assert forall|p: Seq<u8>| #[trigger] self@.contains_key(p) implies self@[p] == want[p] by {
                        let a = self.index_of(p);
                        self.lemma_entry(a);
                        let a0 = if a < i { a } else { a + 1 };
                        assert(self.links@[a] == before.links@[a0]);
                        before.lemma_entry(a0);
                    }
                    assert(self@ =~= want);
                }
                Some(e.target)
            },
        }
    }
}

/// After a link `new` to `old` is made, `new` names the file that `old`
/// named; after that link is removed, `new` is no longer a link, so a second
/// removal finds nothing, while `old` still names the same file.
pub proof fn lemma_link_identity(links: Map<Seq<u8>, Seq<u8>>, old: Seq<u8>, new: Seq<u8>)
    requires
        !links.contains_key(new),
    ensures
        ({
            let linked = links.insert(new, resolve_in(links, old));
            let unlinked = linked.remove(new);
            &&& resolve_in(linked, new) == resolve_in(links, old)
            &&& new != old ==> resolve_in(linked, old) == resolve_in(links, old)
            &&& !unlinked.contains_key(new)
            &&& resolve_in(unlinked, old) == resolve_in(links, old)
        }),
{
    let linked = links.insert(new, resolve_in(links, old));
    let unlinked = linked.remove(new);
    assert(unlinked =~= links);
}

} // verus!
