//! Why the model's invariant holds: each change keeps it, and so does every
//! run of changes.

use vstd::prelude::*;
use crate::fs_model::{other_than, FileNodeView, ModelView};
use crate::paths::parent_of;

verus! {

/// One change of the model: a path is added or a path is removed.
pub enum ModelOp {
    Add { path: Seq<char>, is_dir: bool },
    Remove { path: Seq<char> },
}

impl ModelView {
    /// The model after one change.
    pub open spec fn apply(self, op: ModelOp) -> ModelView {
        match op {
            ModelOp::Add { path, is_dir } => self.add(path, is_dir),
            ModelOp::Remove { path } => self.remove(path),
        }
    }

    /// The model after a run of changes, applied in their order.
    pub open spec fn apply_all(self, ops: Seq<ModelOp>) -> ModelView
        decreases ops.len(),
    {
        if ops.len() == 0 {
            self
        } else {
            self.apply_all(ops.drop_last()).apply(ops.last())
        }
    }
}

/// Adding a path, under whatever name and below whatever parent path, keeps
/// the invariant of the model.
pub proof fn lemma_add_keeps_invariant(
    m: ModelView,
    path: Seq<char>,
    name: Seq<char>,
    is_dir: bool,
    parent_path: Option<Seq<char>>,
)
    requires
        m.wf(),
        m.nodes.len() < usize::MAX,
    ensures
        m.add_below(path, name, is_dir, parent_path).wf(),
{
    if !m.index.contains_key(path) {
        let parent = m.bound_parent(parent_path);
        match parent {
            Some(p) => {
                assert(m.index.contains_key(parent_path.unwrap()));
                let _ = m.nodes[p as int];
            },
            None => {},
        }
        lemma_append_keeps_invariant(m, path, name, is_dir, m.depth_below(parent) as usize, parent);
    }
}

/// Whatever run of additions and removals a model has gone through, starting
/// from a state that meets the invariant, it meets the invariant, as long as
/// its node vector fits the machine.
pub proof fn lemma_changes_keep_invariant(m: ModelView, ops: Seq<ModelOp>)
    requires
        m.wf(),
        m.nodes.len() + ops.len() <= usize::MAX,
    ensures
        m.apply_all(ops).wf(),
        m.apply_all(ops).nodes.len() <= m.nodes.len() + ops.len(),
    decreases ops.len(),
{
    if ops.len() > 0 {
        let before = m.apply_all(ops.drop_last());
        lemma_changes_keep_invariant(m, ops.drop_last());
        match ops.last() {
            ModelOp::Add { path, is_dir } => {
                lemma_add_keeps_invariant(
                    before,
                    path,
                    crate::paths::name_of(path),
                    is_dir,
                    parent_of(path),
                );
            },
            ModelOp::Remove { path } => {
                lemma_remove_keeps_invariant(before, path);
            },
        }
    }
}

/// The lookup and the node vector agree after every run of additions and
/// removals from the empty model: each bound path leads to a node of the
/// vector, and that node stores the path.
pub proof fn lemma_index_agrees_with_nodes(ops: Seq<ModelOp>, path: Seq<char>)
    requires
        ops.len() <= usize::MAX,
        ModelView::empty().apply_all(ops).index.contains_key(path),
    ensures
        ModelView::empty().apply_all(ops).index[path] < ModelView::empty().apply_all(ops).nodes.len(),
        ModelView::empty().apply_all(ops).nodes[ModelView::empty().apply_all(ops).index[path] as int].path
            == path,
{
    lemma_empty_meets_invariant();
    lemma_changes_keep_invariant(ModelView::empty(), ops);
}

/// After every run of additions and removals from the empty model, a node
/// that has a parent lies exactly one level below it.
pub proof fn lemma_depth_is_one_below_parent(ops: Seq<ModelOp>, i: int)
    requires
        ops.len() <= usize::MAX,
        0 <= i < ModelView::empty().apply_all(ops).nodes.len(),
        ModelView::empty().apply_all(ops).nodes[i].parent is Some,
    ensures
        ModelView::empty().apply_all(ops).nodes[i].parent.unwrap() < i,
        ModelView::empty().apply_all(ops).nodes[i].depth == ModelView::empty().apply_all(
            ops,
        ).nodes[ModelView::empty().apply_all(ops).nodes[i].parent.unwrap() as int].depth + 1,
{
    lemma_empty_meets_invariant();
    lemma_changes_keep_invariant(ModelView::empty(), ops);
    let _ = ModelView::empty().apply_all(ops).nodes[i];
}

/// An index means the same node for as long as the model lives: whatever
/// additions and removals follow, no slot is dropped, and each slot keeps
/// its path, its name, its kind, its depth and its parent.
pub proof fn lemma_indices_are_stable(m: ModelView, ops: Seq<ModelOp>, i: int)
    requires
        m.wf(),
        m.nodes.len() + ops.len() <= usize::MAX,
        0 <= i < m.nodes.len(),
    ensures
        m.apply_all(ops).nodes.len() >= m.nodes.len(),
        m.apply_all(ops).nodes[i].path == m.nodes[i].path,
        m.apply_all(ops).nodes[i].name == m.nodes[i].name,
        m.apply_all(ops).nodes[i].is_dir == m.nodes[i].is_dir,
        m.apply_all(ops).nodes[i].depth == m.nodes[i].depth,
        m.apply_all(ops).nodes[i].parent == m.nodes[i].parent,
    decreases ops.len(),
{
    if ops.len() > 0 {
        let before = m.apply_all(ops.drop_last());
        lemma_indices_are_stable(m, ops.drop_last(), i);
        lemma_changes_keep_invariant(m, ops.drop_last());
        match ops.last() {
            ModelOp::Add { path, is_dir } => {
                if !before.index.contains_key(path) {
                    match before.bound_parent(parent_of(path)) {
                        Some(p) => {
                            let pp = parent_of(path).unwrap();
                            assert(before.index.contains_key(pp));
                        },
                        None => {},
                    }
                }
            },
            ModelOp::Remove { path } => {
                if before.index.contains_key(path) {
                    let x = before.index[path];
                    assert(before.live(x as int));
                    let _ = before.nodes[x as int];
                }
            },
        }
    }
}

/// Adding a path a second time changes nothing: the model stays as the first
/// addition left it, and the path stays bound to the index it got then.
pub proof fn lemma_add_twice_is_add_once(m: ModelView, path: Seq<char>, first: bool, second: bool)
    ensures
        m.add(path, first).add(path, second) == m.add(path, first),
        m.add(path, first).index.contains_key(path),
        m.index.contains_key(path) ==> m.add(path, first).index[path] == m.index[path],
        !m.index.contains_key(path) ==> m.add(path, first).index[path] == m.nodes.len() as usize,
{
}

/// The empty model meets the invariant.
pub proof fn lemma_empty_meets_invariant()
    ensures
        ModelView::empty().wf(),
{
}

/// Appending a node for an unbound path, below a live parent or none and at
/// the depth that the parent gives, keeps the invariant of the model.
pub proof fn lemma_append_keeps_invariant(
    m: ModelView,
    path: Seq<char>,
    name: Seq<char>,
    is_dir: bool,
    depth: usize,
    parent: Option<usize>,
)
    requires
        m.wf(),
        m.nodes.len() < usize::MAX,
        !m.index.contains_key(path),
        parent matches Some(p) ==> m.live(p as int),
        depth == m.depth_below(parent),
    ensures
        m.append(path, name, is_dir, depth, parent).wf(),
{
    let a = m.append(path, name, is_dir, depth, parent);
    let n = m.nodes.len() as int;
    assert(a.nodes.len() == n + 1);
    assert(a.nodes[n].path == path);
    assert(a.nodes[n].parent == parent);
    assert(a.nodes[n].depth == depth);
    assert forall|i: int| 0 <= i < n implies (#[trigger] a.nodes[i]).path == m.nodes[i].path
        && a.nodes[i].parent == m.nodes[i].parent && a.nodes[i].depth == m.nodes[i].depth by {}
    // liveness of the nodes that were there is untouched
    assert forall|i: int| 0 <= i < n implies a.live(i) == m.live(i) by {
        if m.live(i) {
            assert(m.nodes[i].path != path);
        }
        if a.live(i) {
            assert(a.index[a.nodes[i].path] == i);
            assert(a.nodes[i].path != path);
        }
    }
    assert(a.live(n));
    assert(a.index_consistent()) by {
        assert forall|p: Seq<char>| #[trigger] a.index.contains_key(p) implies a.index[p]
            < a.nodes.len() && a.nodes[a.index[p] as int].path == p by {
            if p != path {
                assert(m.index.contains_key(p));
            }
        }
    }
    assert(a.depths_consistent()) by {
        assert forall|i: int| 0 <= i < a.nodes.len() implies match (#[trigger] a.nodes[i]).parent {
            Some(p) => {
                &&& p < i
                &&& a.nodes[i].depth == a.nodes[p as int].depth + 1
                &&& a.nodes[i].depth <= i
            },
            None => a.nodes[i].depth == 0,
        } by {
            if i < n {
                let _ = m.nodes[i];
            } else {
                match parent {
                    Some(p) => {
                        let _ = m.nodes[p as int];
                    },
                    None => {},
                }
            }
        }
    }
    assert(a.children_consistent()) by {
        assert forall|i: int| 0 <= i < a.nodes.len() implies {
            &&& (#[trigger] a.nodes[i]).children.no_duplicates()
            &&& forall|k: int|
                0 <= k < a.nodes[i].children.len() ==> {
                    &&& a.live(#[trigger] a.nodes[i].children[k] as int)
                    &&& a.nodes[a.nodes[i].children[k] as int].parent == Some(i as usize)
                }
        } by {
            if i < n {
                let _ = m.nodes[i];
                if parent == Some(i as usize) {
                    let old_children = m.nodes[i].children;
                    assert(a.nodes[i].children == old_children.push(n as usize));
                    assert forall|k: int| 0 <= k < old_children.len() implies old_children[k]
                        != n by {
                        assert(m.live(old_children[k] as int));
                    }
                    assert forall|k: int| 0 <= k < a.nodes[i].children.len() implies {
                        &&& a.live(#[trigger] a.nodes[i].children[k] as int)
                        &&& a.nodes[a.nodes[i].children[k] as int].parent == Some(i as usize)
                    } by {
                        if k < old_children.len() {
                            assert(m.live(old_children[k] as int));
                        }
                    }
                } else {
                    assert(a.nodes[i].children == m.nodes[i].children);
                    assert forall|k: int| 0 <= k < a.nodes[i].children.len() implies {
                        &&& a.live(#[trigger] a.nodes[i].children[k] as int)
                        &&& a.nodes[a.nodes[i].children[k] as int].parent == Some(i as usize)
                    } by {
                        assert(m.live(m.nodes[i].children[k] as int));
                    }
                }
            } else {
                assert(a.nodes[n].children =~= Seq::<usize>::empty());
            }
        }
    }
    assert(a.children_complete()) by {
        assert forall|c: int| #[trigger] a.live(c) implies match a.nodes[c].parent {
            Some(p) => a.live(p as int) ==> a.nodes[p as int].children.contains(c as usize),
            None => true,
        } by {
            if c < n {
                assert(m.live(c));
                match m.nodes[c].parent {
                    Some(p) => {
                        if a.live(p as int) {
                            assert(m.live(p as int));
                            let k = choose|k: int|
                                0 <= k < m.nodes[p as int].children.len() && m.nodes[p as int].children[k]
                                    == c as usize;
                            assert(a.nodes[p as int].children[k] == c as usize);
                        }
                    },
                    None => {},
                }
            } else {
                match parent {
                    Some(p) => {
                        let last = a.nodes[p as int].children.len() - 1;
                        assert(a.nodes[p as int].children[last] == n as usize);
                    },
                    None => {},
                }
            }
        }
    }
    assert(a.root_consistent()) by {
        match parent {
            Some(p) => {
                match m.root {
                    Some(r) => {
                        assert forall|i: int| r < i < a.nodes.len() implies (#[trigger] a.nodes[i]).parent is Some by {
                            if i < n {
                                let _ = m.nodes[i];
                            }
                        }
                    },
                    None => {},
                }
            },
            None => {},
        }
    }
}

/// Removing a path keeps the invariant of the model.
pub proof fn lemma_remove_keeps_invariant(m: ModelView, path: Seq<char>)
    requires
        m.wf(),
    ensures
        m.remove(path).wf(),
{
    if m.index.contains_key(path) {
        let r = m.remove(path);
        let x = m.index[path];
        let n = m.nodes.len() as int;
        let keep = other_than(x);
        assert(m.live(x as int));
        assert(r.nodes.len() == n);
        assert forall|i: int| 0 <= i < n implies (#[trigger] r.nodes[i]).path == m.nodes[i].path
            && r.nodes[i].parent == m.nodes[i].parent && r.nodes[i].depth == m.nodes[i].depth by {}
        assert forall|i: int| 0 <= i < n implies r.live(i) == (m.live(i) && i != x) by {
            if m.live(i) && i != x {
                assert(m.nodes[i].path != path);
            }
        }
        // what each child list has become
        assert forall|i: int| 0 <= i < n implies (#[trigger] r.nodes[i]).children == (if i == x {
            Seq::<usize>::empty()
        } else if m.nodes[x as int].parent == Some(i as usize) {
            m.nodes[i].children.filter(keep)
        } else {
            m.nodes[i].children
        }) by {}
        assert(r.index_consistent()) by {
            assert forall|p: Seq<char>| #[trigger] r.index.contains_key(p) implies r.index[p]
                < r.nodes.len() && r.nodes[r.index[p] as int].path == p by {
                assert(m.index.contains_key(p));
            }
        }
        assert(r.depths_consistent()) by {
            assert forall|i: int| 0 <= i < r.nodes.len() implies match (#[trigger] r.nodes[i]).parent {
                Some(p) => {
                    &&& p < i
                    &&& r.nodes[i].depth == r.nodes[p as int].depth + 1
                    &&& r.nodes[i].depth <= i
                },
                None => r.nodes[i].depth == 0,
            } by {
                let _ = m.nodes[i];
            }
        }
        assert(r.children_consistent()) by {
            assert forall|i: int| 0 <= i < r.nodes.len() implies {
                &&& (#[trigger] r.nodes[i]).children.no_duplicates()
                &&& forall|k: int|
                    0 <= k < r.nodes[i].children.len() ==> {
                        &&& r.live(#[trigger] r.nodes[i].children[k] as int)
                        &&& r.nodes[r.nodes[i].children[k] as int].parent == Some(i as usize)
                    }
            } by {
                let _ = m.nodes[i];
                let before = m.nodes[i].children;
                if i == x {
                } else if m.nodes[x as int].parent == Some(i as usize) {
                    lemma_filter_keeps_order(before, keep);
                    let after = before.filter(keep);
                    assert forall|k: int| 0 <= k < after.len() implies {
                        &&& r.live(#[trigger] after[k] as int)
                        &&& r.nodes[after[k] as int].parent == Some(i as usize)
                    } by {
                        let j = choose|j: int| 0 <= j < before.len() && before[j] == after[k];
                        assert(m.live(before[j] as int));
                        assert(keep(after[k]));
                    }
                } else {
                    assert forall|k: int| 0 <= k < before.len() implies {
                        &&& r.live(#[trigger] before[k] as int)
                        &&& r.nodes[before[k] as int].parent == Some(i as usize)
                    } by {
                        assert(m.live(before[k] as int));
                    }
                }
            }
        }
        assert(r.children_complete()) by {
            assert forall|c: int| #[trigger] r.live(c) implies match r.nodes[c].parent {
                Some(p) => r.live(p as int) ==> r.nodes[p as int].children.contains(c as usize),
                None => true,
            } by {
                assert(m.live(c));
                match m.nodes[c].parent {
                    Some(p) => {
                        if r.live(p as int) {
                            let before = m.nodes[p as int].children;
                            assert(before.contains(c as usize));
                            if m.nodes[x as int].parent == Some(p) {
                                lemma_filter_keeps_order(before, keep);
                                assert(keep(c as usize));
                            }
                        }
                    },
                    None => {},
                }
            }
        }
        assert(r.root_consistent()) by {
            match m.root {
                Some(root) => {
                    assert forall|i: int| root < i < r.nodes.len() implies (#[trigger] r.nodes[i]).parent is Some by {
                        let _ = m.nodes[i];
                    }
                },
                None => {},
            }
        }
    }
}

/// What a filter leaves: exactly the elements that meet the predicate, and no
/// element twice where none stood twice before.
pub proof fn lemma_filter_keeps_order(s: Seq<usize>, pred: spec_fn(usize) -> bool)
    ensures
        forall|k: int| 0 <= k < s.filter(pred).len() ==> pred(#[trigger] s.filter(pred)[k]),
        forall|k: int|
            0 <= k < s.filter(pred).len() ==> s.contains(#[trigger] s.filter(pred)[k]),
        forall|j: int| 0 <= j < s.len() && pred(s[j]) ==> s.filter(pred).contains(#[trigger] s[j]),
        s.no_duplicates() ==> s.filter(pred).no_duplicates(),
    decreases s.len(),
{
    reveal(Seq::filter);
    if s.len() > 0 {
        let front = s.drop_last();
        let last = s.last();
        lemma_filter_keeps_order(front, pred);
        let ff = front.filter(pred);
        let f = s.filter(pred);
        assert forall|k: int| 0 <= k < f.len() implies pred(#[trigger] f[k]) && s.contains(f[k]) by {
            if k < ff.len() {
                assert(f[k] == ff[k]);
                assert(front.contains(ff[k]));
                let j = choose|j: int| 0 <= j < front.len() && front[j] == ff[k];
                assert(s[j] == ff[k]);
            } else {
                assert(f[k] == last);
                assert(s[s.len() - 1] == last);
            }
        }
        assert forall|j: int| 0 <= j < s.len() && pred(s[j]) implies f.contains(#[trigger] s[j]) by {
            if j < front.len() {
                assert(front[j] == s[j]);
                assert(ff.contains(front[j]));
                let k = choose|k: int| 0 <= k < ff.len() && ff[k] == front[j];
                assert(f[k] == s[j]);
            } else {
                assert(f[f.len() - 1] == s[j]);
            }
        }
        if s.no_duplicates() {
            assert(front.no_duplicates());
            assert forall|a: int, b: int| 0 <= a < f.len() && 0 <= b < f.len() && a != b implies f[a]
                != f[b] by {
                if a < ff.len() && b < ff.len() {
                    assert(f[a] == ff[a] && f[b] == ff[b]);
                } else if a < ff.len() {
                    assert(front.contains(ff[a]));
                    let j = choose|j: int| 0 <= j < front.len() && front[j] == ff[a];
                    assert(s[j] == ff[a]);
                    assert(s[s.len() - 1] == last);
                } else if b < ff.len() {
                    assert(front.contains(ff[b]));
                    let j = choose|j: int| 0 <= j < front.len() && front[j] == ff[b];
                    assert(s[j] == ff[b]);
                    assert(s[s.len() - 1] == last);
                }
            }
        }
    }
}

} // verus!
