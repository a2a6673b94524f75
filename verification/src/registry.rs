//! The registry of produced workbook files: an insertion-ordered mapping
//! from minted integer keys to file paths.
//!
//! Keys are minted from a counter that only grows, so a key is never
//! reused; and no two live entries name the same path, so a path is never
//! listed under two keys at once.  Iteration order is insertion order,
//! which keeps listings and scans deterministic.  A path already
//! registered is not registered again: minting hands back the existing
//! key instead of a duplicate entry.

use vstd::prelude::*;

verus! {

/// One registry entry: a minted key and the path it names.
pub struct RegEntry {
    pub id: usize,
    pub name: String,
}

/// Whether some pair in `view` holds the path `name`.
pub open spec fn view_has_name(view: Seq<(nat, Seq<char>)>, name: Seq<char>) -> bool {
    exists|k: int| 0 <= k < view.len() && (#[trigger] view[k]).1 == name
}

/// Whether some pair in `view` holds the key `id`.
pub open spec fn view_has_id(view: Seq<(nat, Seq<char>)>, id: nat) -> bool {
    exists|k: int| 0 <= k < view.len() && (#[trigger] view[k]).0 == id
}

/// The registry contents after adopting `names` one by one: a name already
/// present is skipped, any other gets the next key.
pub open spec fn adopted(
    view: Seq<(nat, Seq<char>)>,
    next: nat,
    names: Seq<Seq<char>>,
) -> (Seq<(nat, Seq<char>)>, nat)
    decreases names.len(),
{
    if names.len() == 0 {
        (view, next)
    } else if view_has_name(view, names[0]) {
        adopted(view, next, names.drop_first())
    } else {
        adopted(view.push((next, names[0])), next + 1, names.drop_first())
    }
}

/// The in-memory file registry.
pub struct Registry {
    entries: Vec<RegEntry>,
    next_id: usize,
}

impl Registry {
    /// The content: (key, path) pairs in insertion order.
    pub closed spec fn entries_view(self) -> Seq<(nat, Seq<char>)> {
        self.entries@.map_values(|e: RegEntry| (e.id as nat, e.name@))
    }

    /// The next key to mint.
    pub closed spec fn spec_next(self) -> nat {
        self.next_id as nat
    }

    pub open spec fn has_id(self, id: nat) -> bool {
        view_has_id(self.entries_view(), id)
    }

    pub open spec fn has_name(self, name: Seq<char>) -> bool {
        view_has_name(self.entries_view(), name)
    }

    /// Well-formed: keys strictly increase along the list (each key minted
    /// once), every key is below the mint counter, and no two entries name
    /// the same path.
    pub open spec fn wf(self) -> bool {
        &&& forall|i: int, j: int|
            0 <= i < j < self.entries_view().len() ==> (#[trigger] self.entries_view()[i]).0 < (
            #[trigger] self.entries_view()[j]).0
        &&& forall|i: int|
            0 <= i < self.entries_view().len() ==> (#[trigger] self.entries_view()[i]).0
                < self.spec_next()
        &&& forall|i: int, j: int|
            0 <= i < j < self.entries_view().len() ==> (#[trigger] self.entries_view()[i]).1 != (
            #[trigger] self.entries_view()[j]).1
    }

    /// An empty registry whose first key will be zero.
    pub fn new() -> (r: Registry)
        ensures
            r.wf(),
            r.entries_view() == Seq::<(nat, Seq<char>)>::empty(),
            r.spec_next() == 0,
    {
        let r = Registry { entries: Vec::new(), next_id: 0 };
        proof {
            assert(r.entries_view() =~= Seq::<(nat, Seq<char>)>::empty());
        }
        r
    }

    /// Whether a key can still be minted.
    pub fn can_mint(&self) -> (b: bool)
        ensures
            b == (self.spec_next() < usize::MAX),
    {
        self.next_id < usize::MAX
    }

    /// Whether `k` more keys can still be minted.
    pub fn can_mint_many(&self, k: usize) -> (b: bool)
        ensures
            b == (self.spec_next() + k <= usize::MAX),
    {
        k <= usize::MAX - self.next_id
    }

    /// Finds the index of the entry naming `name`, if any.
    fn index_of_name(&self, name: &String) -> (r: Option<usize>)
        ensures
            match r {
                Some(k) => 0 <= k < self.entries_view().len() && self.entries_view()[k as int].1
                    == name@,
                None => !self.has_name(name@),
            },
    {
        let mut k: usize = 0;
        while k < self.entries.len()
            invariant
                k <= self.entries@.len(),
                forall|i: int| 0 <= i < k ==> (#[trigger] self.entries_view()[i]).1 != name@,
            decreases self.entries@.len() - k,
        {
            if self.entries[k].name == *name {
                return Some(k);
            }
            k += 1;
        }
        None
    }

    /// Registers a path.  A new path gets the next key and is appended; a
    /// path already registered keeps its key, and nothing changes.
    pub fn insert(&mut self, name: String) -> (id: usize)
        requires
            old(self).wf(),
            old(self).spec_next() < usize::MAX,
        ensures
            final(self).wf(),
            old(self).has_name(name@) ==> *final(self) == *old(self) && exists|k: int|
                0 <= k < old(self).entries_view().len() && (#[trigger] old(
                    self,
                ).entries_view()[k]) == (id as nat, name@),
            !old(self).has_name(name@) ==> {
                &&& final(self).entries_view() == old(self).entries_view().push(
                    (old(self).spec_next(), name@),
                )
                &&& final(self).spec_next() == old(self).spec_next() + 1
                &&& id == old(self).spec_next()
            },
    {
        match self.index_of_name(&name) {
            Some(k) => self.entries[k].id,
            None => {
                let id = self.next_id;
                self.entries.push(RegEntry { id, name });
                self.next_id = id + 1;
                proof {
                    assert(self.entries_view() =~= old(self).entries_view().push(
                        (old(self).spec_next(), name@),
                    ));
                }
                id
            },
        }
    }

    /// Removes the entry with key `id` and hands back its path; afterwards
    /// neither the key nor the path is registered.  Without such an entry
    /// nothing changes.
    pub fn remove(&mut self, id: usize) -> (r: Option<String>)
        requires
            old(self).wf(),
        ensures
            final(self).wf(),
            final(self).spec_next() == old(self).spec_next(),
            match r {
                Some(n) => exists|k: int|
                    0 <= k < old(self).entries_view().len() && (#[trigger] old(
                        self,
                    ).entries_view()[k]) == (id as nat, n@) && final(self).entries_view() == old(
                        self,
                    ).entries_view().remove(k),
                None => !old(self).has_id(id as nat) && *final(self) == *old(self),
            },
            r matches Some(n) ==> !final(self).has_id(id as nat) && !final(self).has_name(n@),
    {
        let mut k: usize = 0;
        while k < self.entries.len()
            invariant
                old(self).wf(),
                *self == *old(self),
                k <= self.entries@.len(),
                forall|i: int| 0 <= i < k ==> (#[trigger] self.entries_view()[i]).0 != id as nat,
            decreases self.entries@.len() - k,
        {
            if self.entries[k].id == id {
                let e = self.entries.remove(k);
                proof {
                    let oldv = old(self).entries_view();
                    let v = self.entries_view();
                    assert(v =~= oldv.remove(k as int));
                    assert(oldv[k as int] == (id as nat, e.name@));
                    assert forall|i: int, j: int| 0 <= i < j < v.len() implies ((#[trigger] v[i]).0
                        < (#[trigger] v[j]).0 && v[i].1 != v[j].1) by {
                        let i2 = if i < k as int {
                            i
                        } else {
                            i + 1
                        };
                        let j2 = if j < k as int {
                            j
                        } else {
                            j + 1
                        };
                        assert(v[i] == oldv[i2]);
                        assert(v[j] == oldv[j2]);
                        assert(0 <= i2 < j2 < oldv.len());
                        assert(oldv[i2].0 < oldv[j2].0);
                        assert(oldv[i2].1 != oldv[j2].1);
                    }
                    assert forall|i: int| 0 <= i < v.len() implies ((#[trigger] v[i]).0 != id as nat
                        && v[i].1 != e.name@ && v[i].0 < self.spec_next()) by {
                        let i2 = if i < k as int {
                            i
                        } else {
                            i + 1
                        };
                        assert(v[i] == oldv[i2]);
                        if i2 < k as int {
                            assert(oldv[i2].0 < oldv[k as int].0);
                        } else {
                            assert(oldv[k as int].0 < oldv[i2].0);
                        }
                    }
                }
                return Some(e.name);
            }
            k += 1;
        }
        None
    }

    /// Puts back an entry whose backing file could not be deleted, under
    /// its old key, at its place in key order.  The entry goes back
    /// exactly when its key and path are both still free and the key was
    /// minted before — between the removal and this call the registry may
    /// have moved on (say, the path was adopted again from disk), and
    /// then nothing changes.
    pub fn restore(&mut self, id: usize, name: String) -> (restored: bool)
        requires
            old(self).wf(),
        ensures
            final(self).wf(),
            final(self).spec_next() == old(self).spec_next(),
            restored == (!old(self).has_id(id as nat) && !old(self).has_name(name@) && id < old(
                self,
            ).spec_next()),
            restored ==> exists|k: int|
                0 <= k <= old(self).entries_view().len() && final(self).entries_view() == old(
                    self,
                ).entries_view().insert(k, (id as nat, name@)),
            restored ==> final(self).has_id(id as nat) && final(self).has_name(name@),
            !restored ==> *final(self) == *old(self),
    {
        if id >= self.next_id {
            return false;
        }
        match self.index_of_name(&name) {
            Some(_) => {
                return false;
            },
            None => {},
        }
        let mut j: usize = 0;
        while j < self.entries.len()
            invariant
                old(self).wf(),
                *self == *old(self),
                j <= self.entries@.len(),
                forall|i: int| 0 <= i < j ==> (#[trigger] self.entries_view()[i]).0 != id as nat,
            decreases self.entries@.len() - j,
        {
            if self.entries[j].id == id {
                proof {
                    assert(self.entries_view()[j as int].0 == id as nat);
                }
                return false;
            }
            j += 1;
        }
        let mut k: usize = 0;
        while k < self.entries.len() && self.entries[k].id < id
            invariant
                *self == *old(self),
                k <= self.entries@.len(),
                forall|i: int| 0 <= i < k ==> (#[trigger] self.entries_view()[i]).0 < id as nat,
            decreases self.entries@.len() - k,
        {
            k += 1;
        }
        proof {
            if (k as int) < self.entries_view().len() {
                assert(self.entries_view()[k as int].0 != id as nat);
                assert(self.entries_view()[k as int].0 > id as nat);
            }
        }
        let ghost pos = k as int;
        let ghost oldv = self.entries_view();
        self.entries.insert(k, RegEntry { id, name });
        proof {
            let v = self.entries_view();
            assert(v =~= oldv.insert(pos, (id as nat, name@)));
            assert(v[pos] == (id as nat, name@));
            assert forall|i: int, j: int| 0 <= i < j < v.len() implies (#[trigger] v[i]).0 < (
            #[trigger] v[j]).0 && (#[trigger] v[i]).1 != (#[trigger] v[j]).1 by {
                if i < pos && j < pos {
                    assert(v[i] == oldv[i] && v[j] == oldv[j]);
                } else if i < pos && j == pos {
                    assert(v[i] == oldv[i]);
                } else if i < pos && j > pos {
                    assert(v[i] == oldv[i] && v[j] == oldv[j - 1]);
                } else if i == pos {
                    assert(v[j] == oldv[j - 1]);
                    assert(oldv[j - 1].0 != id as nat);
                    if j - 1 > pos {
                        assert(oldv[pos].0 < oldv[j - 1].0);
                    }
                } else {
                    assert(v[i] == oldv[i - 1] && v[j] == oldv[j - 1]);
                }
            }
        }
        true
    }

    /// The registered paths, in insertion order.
    pub fn names(&self) -> (out: Vec<String>)
        ensures
            out@.map_values(|s: String| s@) == self.entries_view().map_values(
                |p: (nat, Seq<char>)| p.1,
            ),
    {
        let mut out: Vec<String> = Vec::new();
        let mut k: usize = 0;
        while k < self.entries.len()
            invariant
                k <= self.entries@.len(),
                out@.len() == k,
                forall|i: int| 0 <= i < k ==> (#[trigger] out@[i])@ == self.entries_view()[i].1,
            decreases self.entries@.len() - k,
        {
            out.push(self.entries[k].name.clone());
            k += 1;
        }
        proof {
            assert(out@.map_values(|s: String| s@) =~= self.entries_view().map_values(
                |p: (nat, Seq<char>)| p.1,
            ));
        }
        out
    }

    /// The delete-consistency law: a path no longer registered is absent
    /// from every position of the registry's content, so a scan driven by
    /// the registry's listing never touches it.  Together with `remove`'s
    /// contract — after a successful removal neither the removed key nor
    /// the removed path is registered — a deleted file is neither listed
    /// nor searched.
    pub proof fn lemma_unregistered_not_listed(self, name: Seq<char>)
        requires
            !self.has_name(name),
        ensures
            forall|k: int|
                0 <= k < self.entries_view().len() ==> (#[trigger] self.entries_view()[k]).1
                    != name,
    {
    }

    /// Adopts files found on disk that are not yet registered: each new
    /// path is appended with a fresh key, in the order given; paths
    /// already registered are left as they stand.
    pub fn adopt(&mut self, found: &Vec<String>)
        requires
            old(self).wf(),
            old(self).spec_next() + found@.len() <= usize::MAX,
        ensures
            final(self).wf(),
            (final(self).entries_view(), final(self).spec_next()) == adopted(
                old(self).entries_view(),
                old(self).spec_next(),
                found@.map_values(|s: String| s@),
            ),
    {
        let ghost all = found@.map_values(|s: String| s@);
        let ghost target = adopted(old(self).entries_view(), old(self).spec_next(), all);
        proof {
            assert(all.subrange(0, all.len() as int) =~= all);
        }
        let mut i: usize = 0;
        while i < found.len()
            invariant
                i <= found@.len(),
                all == found@.map_values(|s: String| s@),
                self.wf(),
                self.spec_next() + (found@.len() - i) <= usize::MAX,
                target == adopted(
                    old(self).entries_view(),
                    old(self).spec_next(),
                    all,
                ),
                adopted(
                    self.entries_view(),
                    self.spec_next(),
                    all.subrange(i as int, all.len() as int),
                ) == target,
            decreases found@.len() - i,
        {
            let ghost rest = all.subrange(i as int, all.len() as int);
            proof {
                assert(rest.len() > 0);
                assert(rest[0] == found@[i as int]@);
                assert(rest.drop_first() =~= all.subrange(i as int + 1, all.len() as int));
            }
            let ghost vbefore = self.entries_view();
            let ghost nbefore = self.spec_next();
            match self.index_of_name(&found[i]) {
                Some(_) => {
                    proof {
                        assert(view_has_name(vbefore, rest[0]));
                    }
                },
                None => {
                    let id = self.next_id;
                    self.entries.push(RegEntry { id, name: found[i].clone() });
                    self.next_id = id + 1;
                    proof {
                        let v = self.entries_view();
                        assert(v =~= vbefore.push((nbefore, rest[0])));
                        assert forall|a: int, b: int| 0 <= a < b < v.len() implies (
                        #[trigger] v[a]).0 < (#[trigger] v[b]).0 && (#[trigger] v[a]).1 != (
                        #[trigger] v[b]).1 by {
                            if b == v.len() - 1 {
                                assert(v[a] == vbefore[a]);
                                assert(v[b] == (nbefore, rest[0]));
                            } else {
                                assert(v[a] == vbefore[a] && v[b] == vbefore[b]);
                            }
                        }
                    }
                },
            }
            i += 1;
        }
        proof {
            assert(all.subrange(all.len() as int, all.len() as int) =~= Seq::<Seq<char>>::empty());
        }
    }
}

} // verus!
