//! A lookup from path text to node index, kept as an association list.

use vstd::prelude::*;

verus! {

/// One binding of a path to the index of its node.
struct PathEntry {
    path: String,
    index: usize,
}

/// A finite map from paths to node indices.
///
/// The bindings are held in insertion order and no path is bound twice, so the
/// structure reads as the `Map` that its view gives.
pub struct PathIndex {
    entries: Vec<PathEntry>,
}

impl View for PathIndex {
    type V = Map<Seq<char>, usize>;

    closed spec fn view(&self) -> Map<Seq<char>, usize> {
        Map::new(
            |p: Seq<char>| self.binds(p),
            |p: Seq<char>| self.entries@[self.slot(p)].index,
        )
    }
}

impl PathIndex {
    #[verifier::type_invariant]
    spec fn distinct(&self) -> bool {
        forall|i: int, j: int|
            0 <= i < j < self.entries@.len() ==> self.entries@[i].path@ != self.entries@[j].path@
    }

    spec fn binds(&self, path: Seq<char>) -> bool {
        exists|i: int| 0 <= i < self.entries@.len() && self.entries@[i].path@ == path
    }

    spec fn slot(&self, path: Seq<char>) -> int {
        choose|i: int| 0 <= i < self.entries@.len() && self.entries@[i].path@ == path
    }

    /// Where entry `i` binds `path` and no path is bound twice, the view maps
    /// `path` to that entry's index.
    proof fn lemma_bound_at(&self, i: int)
        requires
            self.distinct(),
            0 <= i < self.entries@.len(),
        ensures
            self@.contains_key(self.entries@[i].path@),
            self@[self.entries@[i].path@] == self.entries@[i].index,
            self.slot(self.entries@[i].path@) == i,
    {
        let p = self.entries@[i].path@;
        assert(self.binds(p));
        let s = self.slot(p);
        assert(0 <= s < self.entries@.len() && self.entries@[s].path@ == p);
        if s < i {
            assert(self.entries@[s].path@ != self.entries@[i].path@);
        } else if i < s {
            assert(self.entries@[i].path@ != self.entries@[s].path@);
        }
    }

    /// The empty index.
    pub fn new() -> (r: Self)
        ensures
            r@ == Map::<Seq<char>, usize>::empty(),
    {
        let r = PathIndex { entries: Vec::new() };
        assert(r@ =~= Map::<Seq<char>, usize>::empty());
        r
    }

    fn find(&self, path: &String) -> (r: Option<usize>)
        ensures
            match r {
                Some(i) => i < self.entries@.len() && self.entries@[i as int].path@ == path@,
                None => !self.binds(path@),
            },
    {
        let mut i: usize = 0;
        while i < self.entries.len()
            invariant
                i <= self.entries@.len(),
                forall|k: int| 0 <= k < i ==> self.entries@[k].path@ != path@,
            decreases self.entries@.len() - i,
        {
            if self.entries[i].path == *path {
                return Some(i);
            }
            i += 1;
        }
        None
    }

    /// The index bound to `path`, if any.
    pub fn get(&self, path: &String) -> (r: Option<usize>)
        ensures
            match r {
                Some(v) => self@.contains_key(path@) && self@[path@] == v,
                None => !self@.contains_key(path@),
            },
    {
        proof {
            use_type_invariant(self);
        }
        match self.find(path) {
            Some(i) => {
                proof {
                    self.lemma_bound_at(i as int);
                }
                Some(self.entries[i].index)
            },
            None => None,
        }
    }
    /// Whether `path` is bound.
    pub fn contains_key(&self, path: &String) -> (r: bool)
        ensures
            r == self@.contains_key(path@),
    {
        self.find(path).is_some()
    }

    /// Binds `path` to `index`, replacing an earlier binding of the same path.
    pub fn insert(&mut self, path: String, index: usize)
        ensures
            final(self)@ == old(self)@.insert(path@, index),
    {
        proof {
            use_type_invariant(&*self);
        }
        let ghost before = *self;
        match self.find(&path) {
            Some(i) => {
                let ghost key = path@;
                let mut entries: Vec<PathEntry> = Vec::new();
                core::mem::swap(&mut self.entries, &mut entries);
                entries[i].index = index;
                self.entries = entries;
                proof {
                    assert forall|p: Seq<char>| before.binds(p) == self.binds(p) by {
                        if before.binds(p) {
                            let k = before.slot(p);
                            assert(self.entries@[k].path@ == p);
                        }
                        if self.binds(p) {
                            let k = self.slot(p);
                            assert(before.entries@[k].path@ == p);
                        }
                    }
                    assert forall|p: Seq<char>| self.binds(p) implies #[trigger] self@[p]
                        == before@.insert(key, index)[p] by {
                        let k = self.slot(p);
                        self.lemma_bound_at(k);
                        before.lemma_bound_at(k);
                    }
                    assert(self@ =~= before@.insert(key, index));
                }
            },
            None => {
                let ghost key = path@;
                let mut entries: Vec<PathEntry> = Vec::new();
                core::mem::swap(&mut self.entries, &mut entries);
                entries.push(PathEntry { path, index });
                self.entries = entries;
                proof {
                    let n = before.entries@.len() as int;
                    assert forall|p: Seq<char>| self.binds(p) == (before.binds(p) || p == key) by {
                        if before.binds(p) {
                            let k = before.slot(p);
                            assert(self.entries@[k].path@ == p);
                        }
                        if p == key {
                            assert(self.entries@[n].path@ == p);
                        }
                        if self.binds(p) {
                            let k = self.slot(p);
                            if k < n {
                                assert(before.entries@[k].path@ == p);
                            }
                        }
                    }
                    assert forall|p: Seq<char>| self.binds(p) implies #[trigger] self@[p]
                        == before@.insert(key, index)[p] by {
                        let k = self.slot(p);
                        self.lemma_bound_at(k);
                        if k < n {
                            before.lemma_bound_at(k);
                        }
                    }
                    assert(self@ =~= before@.insert(key, index));
                }
            },
        }
    }

    /// Unbinds `path` and returns the index it was bound to, if any.
    pub fn remove(&mut self, path: &String) -> (r: Option<usize>)
        ensures
            final(self)@ == old(self)@.remove(path@),
            match r {
                Some(v) => old(self)@.contains_key(path@) && old(self)@[path@] == v,
                None => !old(self)@.contains_key(path@),
            },
    {
        proof {
            use_type_invariant(&*self);
        }
        let ghost before = *self;
        match self.find(path) {
            Some(i) => {
                proof {
                    before.lemma_bound_at(i as int);
                }
                let mut entries: Vec<PathEntry> = Vec::new();
                core::mem::swap(&mut self.entries, &mut entries);
                let entry = entries.remove(i);
                self.entries = entries;
                proof {
                    let key = path@;
                    assert forall|p: Seq<char>| self.binds(p) == (before.binds(p) && p != key) by {
                        if before.binds(p) && p != key {
                            let k = before.slot(p);
                            if k < i {
                                assert(self.entries@[k].path@ == p);
                            } else {
                                assert(self.entries@[k - 1].path@ == p);
                            }
                        }
                        if self.binds(p) {
                            let k = self.slot(p);
                            if k < i {
                                assert(before.entries@[k].path@ == p);
                            } else {
                                assert(before.entries@[k + 1].path@ == p);
                            }
                        }
                    }
                    assert forall|p: Seq<char>| self.binds(p) implies #[trigger] self@[p]
                        == before@.remove(key)[p] by {
                        let k = self.slot(p);
                        self.lemma_bound_at(k);
                        if k < i {
                            before.lemma_bound_at(k);
                        } else {
                            before.lemma_bound_at(k + 1);
                        }
                    }
                    assert(self@ =~= before@.remove(key));
                }
                Some(entry.index)
            },
            None => {
                assert(self@ =~= before@.remove(path@));
                None
            },
        }
    }
}

} // verus!
