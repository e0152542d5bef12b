//! Keeping the model in step with the watched directory: one watcher event at
//! a time, and by a full comparison with a fresh walk whenever the ignore
//! rules may have changed.

use vstd::prelude::*;
use crate::fs_model::{FileSystemModel, ModelView};
use crate::paths::{is_gitignore_file, names_gitignore};
use crate::watcher::FileSystemEvent;

verus! {

/// What an event did to the model.
#[derive(Debug, Clone, Copy, PartialEq, Eq, Structural)]
pub enum ModelChange {
    /// A node was created at this index.
    Added(usize),
    /// The node at this index was unlinked.
    Removed(usize),
    Unchanged,
}

/// The result of taking one event: the change to the model, and whether the
/// event touched a `.gitignore` file, after which the model is due for a
/// reconciliation.
#[derive(Debug, Clone, Copy, PartialEq, Eq, Structural)]
pub struct EventOutcome {
    pub change: ModelChange,
    pub gitignore_changed: bool,
}

/// One path that a fresh walk of the watched directory found visible, that
/// is, not excluded by the ignore rules.
#[derive(Debug)]
pub struct VisiblePath {
    pub path: String,
    pub is_dir: bool,
}

/// What a reconciliation did: the indices of the nodes it unlinked, in rising
/// order, and the indices of the nodes it created, in the order of creation.
#[derive(Debug)]
pub struct Reconciliation {
    pub removed: Vec<usize>,
    pub added: Vec<usize>,
}

/// The paths that a walk found visible, as a set.
pub open spec fn path_set(visible: Seq<VisiblePath>) -> Set<Seq<char>> {
    Set::new(|p: Seq<char>| exists|k: int| 0 <= k < visible.len() && visible[k].path@ == p)
}

/// The indices from `low` up to, not including, `high`.
pub open spec fn index_range(low: int, high: int) -> Seq<usize> {
    Seq::new((high - low) as nat, |k: int| (low + k) as usize)
}

impl ModelView {
    /// The model after a watcher event. A creation adds the path unless the
    /// ignore rules exclude it; a deletion removes it; a modification leaves
    /// the model alone.
    pub open spec fn after_event(self, event: FileSystemEvent, ignored: bool) -> ModelView {
        match event {
            FileSystemEvent::Created(path, is_dir) => if ignored {
                self
            } else {
                self.add(path@, is_dir)
            },
            FileSystemEvent::Deleted(path) => self.remove(path@),
            FileSystemEvent::Modified(_) => self,
        }
    }

    /// Node `i` is live and its path is not among `keep`.
    pub open spec fn stale(self, keep: Set<Seq<char>>, i: int) -> bool {
        self.live(i) && !keep.contains(self.nodes[i].path)
    }

    /// The model after every stale node below index `upto` has had its path
    /// removed, in rising order of index.
    pub open spec fn prune_to(self, keep: Set<Seq<char>>, upto: int) -> ModelView
        decreases upto,
    {
        if upto <= 0 {
            self
        } else {
            let before = self.prune_to(keep, upto - 1);
            if before.stale(keep, upto - 1) {
                before.remove(before.nodes[upto - 1].path)
            } else {
                before
            }
        }
    }

    /// The indices below `upto` of the nodes that are stale, in rising order.
    pub open spec fn stale_below(self, keep: Set<Seq<char>>, upto: int) -> Seq<usize>
        decreases upto,
    {
        if upto <= 0 {
            Seq::empty()
        } else if self.stale(keep, upto - 1) {
            self.stale_below(keep, upto - 1).push((upto - 1) as usize)
        } else {
            self.stale_below(keep, upto - 1)
        }
    }

    /// The model after the visible paths are added one by one, in their
    /// order, each under the name that its final component gives.
    pub open spec fn add_visible(self, visible: Seq<VisiblePath>) -> ModelView
        decreases visible.len(),
    {
        if visible.len() == 0 {
            self
        } else {
            self.add_visible(visible.drop_last()).add(visible.last().path@, visible.last().is_dir)
        }
    }

    /// The model after a reconciliation with a fresh walk: first every bound
    /// path that the walk did not find is removed, then every path of the
    /// walk that is not bound is added.
    pub open spec fn reconcile(self, visible: Seq<VisiblePath>) -> ModelView {
        self.prune_to(path_set(visible), self.nodes.len() as int).add_visible(visible)
    }

    /// What a watcher event does to the model, as the caller is told.
    pub open spec fn change_by(self, event: FileSystemEvent, ignored: bool) -> ModelChange {
        match event {
            FileSystemEvent::Created(path, _) => if ignored || self.index.contains_key(path@) {
                ModelChange::Unchanged
            } else {
                ModelChange::Added(self.nodes.len() as usize)
            },
            FileSystemEvent::Deleted(path) => if self.index.contains_key(path@) {
                ModelChange::Removed(self.index[path@])
            } else {
                ModelChange::Unchanged
            },
            FileSystemEvent::Modified(_) => ModelChange::Unchanged,
        }
    }
}

impl FileSystemModel {
    /// Takes one watcher event. `ignored` says whether the ignore rules
    /// exclude the event's path; it is read for creations only.
    ///
    /// A path that is bound already is not added again and an unbound path is
    /// not removed: both leave the model unchanged.
    pub fn apply_event(&mut self, event: &FileSystemEvent, ignored: bool) -> (outcome: EventOutcome)
        ensures
            final(self)@ == old(self)@.after_event(*event, ignored),
            final(self)@.wf(),
            outcome.change == old(self)@.change_by(*event, ignored),
            outcome.gitignore_changed == names_gitignore(event.spec_path()),
    {
        proof {
            use_type_invariant(&*self);
        }
        let gitignore_changed = is_gitignore_file(event.path());
        let change = match event {
            FileSystemEvent::Created(path, is_dir) => {
                if ignored {
                    ModelChange::Unchanged
                } else {
                    match self.add_node(path.clone(), *is_dir) {
                        Some(index) => ModelChange::Added(index),
                        None => ModelChange::Unchanged,
                    }
                }
            },
            FileSystemEvent::Deleted(path) => {
                match self.remove_node(path) {
                    Some(index) => ModelChange::Removed(index),
                    None => ModelChange::Unchanged,
                }
            },
            FileSystemEvent::Modified(_) => ModelChange::Unchanged,
        };
        EventOutcome { change, gitignore_changed }
    }
    /// Whether `path` is among the visible paths.
    fn is_visible(visible: &Vec<VisiblePath>, path: &String) -> (found: bool)
        ensures
            found == path_set(visible@).contains(path@),
    {
        let mut k: usize = 0;
        while k < visible.len()
            invariant
                k <= visible@.len(),
                forall|j: int| 0 <= j < k ==> visible@[j].path@ != path@,
            decreases visible@.len() - k,
        {
            if visible[k].path == *path {
                return true;
            }
            k += 1;
        }
        false
    }

    /// The path of node `i`, where the node is live and its path is not
    /// among the visible ones.
    fn stale_path(&self, visible: &Vec<VisiblePath>, i: usize) -> (path: Option<String>)
        requires
            i < self@.nodes.len(),
        ensures
            match path {
                Some(p) => self@.stale(path_set(visible@), i as int) && p@ == self@.nodes[i as int].path,
                None => !self@.stale(path_set(visible@), i as int),
            },
    {
        match self.get_node(i) {
            Some(node) => {
                let live = match self.get_node_by_path(&node.path) {
                    Some((bound, _)) => bound == i,
                    None => false,
                };
                if live && !Self::is_visible(visible, &node.path) {
                    Some(node.path.clone())
                } else {
                    None
                }
            },
            None => None,
        }
    }

    /// Brings the model in step with a fresh walk of the watched directory.
    ///
    /// Every bound path that is not among `visible` is removed, then every
    /// path of `visible` that is not bound is added, in the order of
    /// `visible`. Afterwards the bound paths are exactly the visible ones; a
    /// path that was bound and is visible keeps its index, and no slot of the
    /// node vector is dropped or moved.
    pub fn reconcile(&mut self, visible: &Vec<VisiblePath>) -> (done: Reconciliation)
        ensures
            final(self)@ == old(self)@.reconcile(visible@),
            final(self)@.wf(),
            done.removed@ == old(self)@.stale_below(
                path_set(visible@),
                old(self)@.nodes.len() as int,
            ),
            done.added@ == index_range(
                old(self)@.nodes.len() as int,
                final(self)@.nodes.len() as int,
            ),
            final(self)@.index.dom() == path_set(visible@),
            forall|p: Seq<char>|
                old(self)@.index.contains_key(p) && path_set(visible@).contains(p)
                    ==> #[trigger] final(self)@.index[p] == old(self)@.index[p],
            final(self)@.nodes.len() >= old(self)@.nodes.len(),
            forall|i: int|
                0 <= i < old(self)@.nodes.len()
                    ==> (#[trigger] final(self)@.nodes[i]).path == old(self)@.nodes[i].path,
    {
        let ghost before = self@;
        let ghost keep = path_set(visible@);
        proof {
            use_type_invariant(&*self);
        }
        let mut removed: Vec<usize> = Vec::new();
        let mut added: Vec<usize> = Vec::new();
        let total = self.total_nodes();
        let mut i: usize = 0;
        while i < total
            invariant
                i <= total,
                total == before.nodes.len(),
                before.wf(),
                keep == path_set(visible@),
                self@.wf(),
                self@ == before.prune_to(keep, i as int),
                removed@ == before.stale_below(keep, i as int),
                self@.nodes.len() == total,
                forall|j: int|
                    0 <= j < total ==> (#[trigger] self@.nodes[j]).path == before.nodes[j].path,
                forall|p: Seq<char>| #[trigger]
                    self@.index.contains_key(p) ==> before.index.contains_key(p) && self@.index[p]
                        == before.index[p] && (keep.contains(p) || before.index[p] >= i),
                forall|p: Seq<char>| #[trigger]
                    before.index.contains_key(p) && (keep.contains(p) || before.index[p] >= i)
                        ==> self@.index.contains_key(p),
            decreases total - i,
        {
            let ghost now = self@;
            assert(now.nodes[i as int].path == before.nodes[i as int].path);
            assert(now.live(i as int) == before.live(i as int));
            let stale = match self.stale_path(visible, i) {
                Some(path) => {
                    self.remove_node(&path);
                    removed.push(i);
                    true
                },
                None => false,
            };
            if stale {
                proof {
                    assert forall|j: int| 0 <= j < total implies (#[trigger] self@.nodes[j]).path
                        == before.nodes[j].path by {
                        assert(now.nodes[j].path == before.nodes[j].path);
                    }
                    assert forall|p: Seq<char>| #[trigger]
                        self@.index.contains_key(p) implies before.index.contains_key(p)
                        && self@.index[p] == before.index[p] && (keep.contains(p) || before.index[p]
                        >= i + 1) by {
                        assert(now.index.contains_key(p));
                        if before.index[p] == i {
                            assert(before.nodes[i as int].path == p);
                        }
                    }
                    assert forall|p: Seq<char>| #[trigger]
                        before.index.contains_key(p) && (keep.contains(p) || before.index[p] >= i
                        + 1) implies self@.index.contains_key(p) by {
                        assert(now.index.contains_key(p));
                        if before.index[p] == i {
                            assert(before.nodes[i as int].path == p);
                        }
                    }
                }
            } else {
                proof {
                    assert forall|p: Seq<char>| #[trigger]
                        self@.index.contains_key(p) implies before.index.contains_key(p)
                        && self@.index[p] == before.index[p] && (keep.contains(p) || before.index[p]
                        >= i + 1) by {
                        assert(now.index.contains_key(p));
                        if before.index[p] == i {
                            assert(before.nodes[i as int].path == p);
                        }
                    }
                    assert forall|p: Seq<char>| #[trigger]
                        before.index.contains_key(p) && (keep.contains(p) || before.index[p] >= i
                        + 1) implies self@.index.contains_key(p) by {
                        assert(now.index.contains_key(p));
                        if before.index[p] == i {
                            assert(before.nodes[i as int].path == p);
                        }
                    }
                }
            }
            i += 1;
        }
        let ghost pruned = self@;
        proof {
            assert forall|p: Seq<char>| #[trigger] pruned.index.contains_key(p) implies keep.contains(
                p,
            ) by {
                assert(before.index.contains_key(p));
            }
        }
        let mut k: usize = 0;
        assert(visible@.take(0) =~= Seq::<VisiblePath>::empty());
        assert(added@ =~= index_range(total as int, total as int));
        while k < visible.len()
            invariant
                k <= visible@.len(),
                total == before.nodes.len(),
                keep == path_set(visible@),
                self@.wf(),
                self@ == pruned.add_visible(visible@.take(k as int)),
                self@.nodes.len() >= total,
                added@ == index_range(total as int, self@.nodes.len() as int),
                forall|j: int|
                    0 <= j < total ==> (#[trigger] self@.nodes[j]).path == before.nodes[j].path,
                forall|p: Seq<char>| #[trigger]
                    self@.index.contains_key(p) ==> pruned.index.contains_key(p) || keep.contains(p),
                forall|p: Seq<char>| #[trigger]
                    pruned.index.contains_key(p) ==> self@.index.contains_key(p) && self@.index[p]
                        == pruned.index[p],
                forall|j: int| 0 <= j < k ==> self@.index.contains_key(#[trigger] visible@[j].path@),
            decreases visible@.len() - k,
        {
            let ghost now = self@;
            proof {
                assert(visible@.take(k + 1).drop_last() =~= visible@.take(k as int));
                assert(visible@.take(k + 1).last() == visible@[k as int]);
            }
            let entry = &visible[k];
            match self.add_node(entry.path.clone(), entry.is_dir) {
                Some(index) => {
                    added.push(index);
                    assert(added@ =~= index_range(total as int, self@.nodes.len() as int));
                },
                None => {},
            }
            proof {
                assert forall|j: int| 0 <= j < total implies (#[trigger] self@.nodes[j]).path
                    == before.nodes[j].path by {
                    assert(now.nodes[j].path == before.nodes[j].path);
                }
                assert forall|p: Seq<char>| #[trigger] self@.index.contains_key(p) implies pruned.index.contains_key(
                    p,
                ) || keep.contains(p) by {
                    if p == entry.path@ {
                        assert(visible@[k as int].path@ == p);
                    } else {
                        assert(now.index.contains_key(p));
                    }
                }
                assert forall|p: Seq<char>| #[trigger] pruned.index.contains_key(p) implies self@.index.contains_key(
                    p,
                ) && self@.index[p] == pruned.index[p] by {
                    assert(now.index.contains_key(p));
                }
                assert forall|j: int| 0 <= j < k + 1 implies self@.index.contains_key(
                    #[trigger] visible@[j].path@,
                ) by {
                    if j < k {
                        assert(now.index.contains_key(visible@[j].path@));
                    }
                }
            }
            k += 1;
        }
        proof {
            assert(visible@.take(k as int) =~= visible@);
            assert forall|p: Seq<char>| keep.contains(p) implies self@.index.contains_key(p) by {
                let j = choose|j: int| 0 <= j < visible@.len() && visible@[j].path@ == p;
                assert(self@.index.contains_key(visible@[j].path@));
            }
            assert(self@.index.dom() =~= keep);
            assert forall|p: Seq<char>| before.index.contains_key(p) && keep.contains(p) implies #[trigger] self@.index[p]
                == before.index[p] by {
                assert(pruned.index.contains_key(p));
            }
        }
        Reconciliation { removed, added }
    }
}

} // verus!
