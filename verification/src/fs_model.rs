//! An index-stable mirror of a directory tree.
//!
//! Nodes live in a vector and are never moved or dropped: removing a path
//! unbinds it and unlinks its node, and the slot stays behind, so an index
//! handed out once means the same node for as long as the model lives.

use vstd::prelude::*;
use crate::path_index::PathIndex;
use crate::fs_laws::{lemma_append_keeps_invariant, lemma_remove_keeps_invariant};
use crate::paths::{display_name, name_of, parent_of, path_parent};

verus! {

/// One entry of the watched tree.
#[derive(Debug)]
pub struct FileNode {
    pub path: String,
    pub name: String,
    pub is_dir: bool,
    pub depth: usize,
    pub children: Vec<usize>,
    pub parent: Option<usize>,
}

/// What a `FileNode` holds, as mathematical values.
pub struct FileNodeView {
    pub path: Seq<char>,
    pub name: Seq<char>,
    pub is_dir: bool,
    pub depth: usize,
    pub children: Seq<usize>,
    pub parent: Option<usize>,
}

impl View for FileNode {
    type V = FileNodeView;

    open spec fn view(&self) -> FileNodeView {
        FileNodeView {
            path: self.path@,
            name: self.name@,
            is_dir: self.is_dir,
            depth: self.depth,
            children: self.children@,
            parent: self.parent,
        }
    }
}

/// One entry of a directory walk: a path, the name to show for it, and
/// whether it is a directory.
#[derive(Debug)]
pub struct WalkEntry {
    pub path: String,
    pub name: String,
    pub is_dir: bool,
}

/// The node vector together with the lookup from path to index, and the
/// index of the root.
pub struct FileSystemModel {
    nodes: Vec<FileNode>,
    path_to_index: PathIndex,
    root: Option<usize>,
}

/// What a `FileSystemModel` holds, as mathematical values.
pub struct ModelView {
    pub nodes: Seq<FileNodeView>,
    pub index: Map<Seq<char>, usize>,
    pub root: Option<usize>,
}

/// What a list of nodes holds, as mathematical values.
pub open spec fn node_views(nodes: Seq<FileNode>) -> Seq<FileNodeView> {
    nodes.map_values(|n: FileNode| n@)
}

impl View for FileSystemModel {
    type V = ModelView;

    closed spec fn view(&self) -> ModelView {
        ModelView { nodes: node_views(self.nodes@), index: self.path_to_index@, root: self.root }
    }
}

/// The text of a path that may be missing.
pub open spec fn text_of(path: Option<String>) -> Option<Seq<char>> {
    match path {
        Some(p) => Some(p@),
        None => None,
    }
}

/// The predicate that keeps every index but `index`.
pub open spec fn other_than(index: usize) -> spec_fn(usize) -> bool {
    |c: usize| c != index
}

/// The first place at which `value` stands in `list`, or 0 where it does not
/// stand in it.
pub open spec fn first_place(list: Seq<usize>, value: usize) -> int {
    if list.contains(value) {
        choose|k: int|
            0 <= k < list.len() && list[k] == value && forall|j: int| 0 <= j < k ==> list[j] != value
    } else {
        0
    }
}

impl ModelView {
    /// The model without nodes.
    pub open spec fn empty() -> ModelView {
        ModelView { nodes: Seq::empty(), index: Map::empty(), root: None }
    }

    /// Node `i` is the one that the lookup gives for its own path.
    pub open spec fn live(self, i: int) -> bool {
        &&& 0 <= i < self.nodes.len()
        &&& self.index.contains_key(self.nodes[i].path)
        &&& self.index[self.nodes[i].path] == i
    }

    /// Every bound path leads to a node that stores that path.
    pub open spec fn index_consistent(self) -> bool {
        forall|p: Seq<char>| #[trigger]
            self.index.contains_key(p) ==> self.index[p] < self.nodes.len()
                && self.nodes[self.index[p] as int].path == p
    }

    /// A node with a parent lies one level below it and was created after it;
    /// a node without one lies at depth 0.
    pub open spec fn depths_consistent(self) -> bool {
        forall|i: int|
            0 <= i < self.nodes.len() ==> match (#[trigger] self.nodes[i]).parent {
                Some(p) => {
                    &&& p < i
                    &&& self.nodes[i].depth == self.nodes[p as int].depth + 1
                    &&& self.nodes[i].depth <= i
                },
                None => self.nodes[i].depth == 0,
            }
    }

    /// A child list names no index twice, and each index in it is a live node
    /// whose parent is the list's owner.
    pub open spec fn children_consistent(self) -> bool {
        forall|i: int|
            0 <= i < self.nodes.len() ==> {
                &&& (#[trigger] self.nodes[i]).children.no_duplicates()
                &&& forall|k: int|
                    0 <= k < self.nodes[i].children.len() ==> {
                        &&& self.live(#[trigger] self.nodes[i].children[k] as int)
                        &&& self.nodes[self.nodes[i].children[k] as int].parent == Some(i as usize)
                    }
            }
    }

    /// A live node whose parent is live stands in that parent's child list.
    pub open spec fn children_complete(self) -> bool {
        forall|c: int| #[trigger]
            self.live(c) ==> match self.nodes[c].parent {
                Some(p) => self.live(p as int) ==> self.nodes[p as int].children.contains(
                    c as usize,
                ),
                None => true,
            }
    }

    /// The recorded root is the parentless node that was created last; none is
    /// recorded only while there is no node.
    pub open spec fn root_consistent(self) -> bool {
        match self.root {
            Some(r) => {
                &&& r < self.nodes.len()
                &&& self.nodes[r as int].parent is None
                &&& forall|i: int|
                    r < i < self.nodes.len() ==> (#[trigger] self.nodes[i]).parent is Some
            },
            None => self.nodes.len() == 0,
        }
    }

    /// The invariant of the model.
    pub open spec fn wf(self) -> bool {
        &&& self.nodes.len() <= usize::MAX
        &&& self.index_consistent()
        &&& self.depths_consistent()
        &&& self.children_consistent()
        &&& self.children_complete()
        &&& self.root_consistent()
    }

    /// The place of node `i` in the child list of its parent, counted from
    /// 0; and 0 for a node without a parent or one that its parent no longer
    /// lists.
    pub open spec fn index_in_parent(self, i: int) -> int {
        match self.nodes[i].parent {
            Some(p) => first_place(self.nodes[p as int].children, i as usize),
            None => 0,
        }
    }

    /// The index of the node bound to `parent_path`, where there is such a
    /// path and it is bound.
    pub open spec fn bound_parent(self, parent_path: Option<Seq<char>>) -> Option<usize> {
        match parent_path {
            Some(pp) => if self.index.contains_key(pp) {
                Some(self.index[pp])
            } else {
                None
            },
            None => None,
        }
    }

    /// The depth of a node below `parent`: one more than the parent's, and 0
    /// without a parent.
    pub open spec fn depth_below(self, parent: Option<usize>) -> int {
        match parent {
            Some(p) => self.nodes[p as int].depth + 1,
            None => 0,
        }
    }

    /// The model after a node with the given fields is appended, bound to its
    /// path and linked below `parent`; without a parent it becomes the
    /// recorded root.
    pub open spec fn append(
        self,
        path: Seq<char>,
        name: Seq<char>,
        is_dir: bool,
        depth: usize,
        parent: Option<usize>,
    ) -> ModelView {
        let index = self.nodes.len() as usize;
        let node = FileNodeView { path, name, is_dir, depth, children: Seq::empty(), parent };
        let nodes = self.nodes.push(node);
        ModelView {
            nodes: match parent {
                Some(p) => nodes.update(
                    p as int,
                    FileNodeView { children: nodes[p as int].children.push(index), ..nodes[p as int] },
                ),
                None => nodes,
            },
            index: self.index.insert(path, index),
            root: match parent {
                Some(_) => self.root,
                None => Some(index),
            },
        }
    }

    /// The model after `path` is added under the display name `name`, with
    /// `parent_path` as the path of its parent: unchanged where `path` is
    /// bound already, else with a new last node for it, one level below the
    /// node bound to `parent_path`, or at depth 0 and as the new root where
    /// no node is.
    pub open spec fn add_below(
        self,
        path: Seq<char>,
        name: Seq<char>,
        is_dir: bool,
        parent_path: Option<Seq<char>>,
    ) -> ModelView {
        if self.index.contains_key(path) {
            self
        } else {
            let parent = self.bound_parent(parent_path);
            self.append(path, name, is_dir, self.depth_below(parent) as usize, parent)
        }
    }

    /// The model after `path` is added under the display name `name`, below
    /// the node bound to the path that is its parent by its text.
    pub open spec fn add_named(self, path: Seq<char>, name: Seq<char>, is_dir: bool) -> ModelView {
        self.add_below(path, name, is_dir, parent_of(path))
    }

    /// The model after `path` is added under the name that its final
    /// component gives.
    pub open spec fn add(self, path: Seq<char>, is_dir: bool) -> ModelView {
        self.add_named(path, name_of(path), is_dir)
    }

    /// The model after the entries of a walk are added one by one, in their
    /// order.
    pub open spec fn add_walk(self, entries: Seq<WalkEntry>) -> ModelView
        decreases entries.len(),
    {
        if entries.len() == 0 {
            self
        } else {
            let last = entries.last();
            self.add_walk(entries.drop_last()).add_named(last.path@, last.name@, last.is_dir)
        }
    }

    /// The model after `path` is removed: unchanged where the path is not
    /// bound, else with the path unbound, its node taken out of its parent's
    /// child list and its own child list emptied.
    pub open spec fn remove(self, path: Seq<char>) -> ModelView {
        if !self.index.contains_key(path) {
            self
        } else {
            let index = self.index[path];
            let unlinked = match self.nodes[index as int].parent {
                Some(p) => self.nodes.update(
                    p as int,
                    FileNodeView {
                        children: self.nodes[p as int].children.filter(other_than(index)),
                        ..self.nodes[p as int]
                    },
                ),
                None => self.nodes,
            };
            ModelView {
                nodes: unlinked.update(
                    index as int,
                    FileNodeView { children: Seq::empty(), ..unlinked[index as int] },
                ),
                index: self.index.remove(path),
                root: self.root,
            }
        }
    }
}

impl FileSystemModel {
    /// The invariant of the model, on what it holds.
    #[verifier::type_invariant]
    pub open spec fn inv(&self) -> bool {
        self@.wf()
    }

    /// The model without nodes.
    pub fn new() -> (model: Self)
        ensures
            model@ == ModelView::empty(),
    {
        let model = FileSystemModel { nodes: Vec::new(), path_to_index: PathIndex::new(), root: None };
        assert(model@.nodes =~= Seq::<FileNodeView>::empty());
        model
    }

    /// The model of a directory walk: the entries are added in their order,
    /// each below the node bound to its parent path, so a walk that visits
    /// parents before their children gives the tree. An entry whose path came
    /// before is passed over.
    pub fn build_initial(entries: &Vec<WalkEntry>) -> (model: Self)
        ensures
            model@ == ModelView::empty().add_walk(entries@),
            model@.wf(),
    {
        let mut model = FileSystemModel::new();
        let mut done: usize = 0;
        assert(entries@.take(0) =~= Seq::<WalkEntry>::empty());
        while done < entries.len()
            invariant
                done <= entries@.len(),
                model@ == ModelView::empty().add_walk(entries@.take(done as int)),
            decreases entries@.len() - done,
        {
            proof {
                assert(entries@.take(done + 1).drop_last() =~= entries@.take(done as int));
                assert(entries@.take(done + 1).last() == entries@[done as int]);
            }
            let entry = &entries[done];
            model.add_named(entry.path.clone(), entry.name.clone(), entry.is_dir);
            done += 1;
        }
        proof {
            assert(entries@.take(done as int) =~= entries@);
            use_type_invariant(&model);
        }
        model
    }

    /// The nodes, by index; removed ones keep their slots.
    pub fn nodes(&self) -> (nodes: &Vec<FileNode>)
        ensures
            node_views(nodes@) == self@.nodes,
            self@.wf(),
    {
        proof {
            use_type_invariant(self);
        }
        &self.nodes
    }

    /// The index of the root: the node without a parent that was created
    /// last, or `None` while there is no node.
    pub fn root(&self) -> (root: Option<usize>)
        ensures
            root == self@.root,
            self@.wf(),
    {
        proof {
            use_type_invariant(self);
        }
        self.root
    }

    /// Appends a node with the given fields, binds its path to it and links
    /// it below `parent`; a node without a parent becomes the recorded root.
    /// Returns the new node's index.
    fn add_node_internal(
        &mut self,
        path: String,
        name: String,
        is_dir: bool,
        depth: usize,
        parent: Option<usize>,
    ) -> (index: usize)
        requires
            !old(self)@.index.contains_key(path@),
            parent matches Some(p) ==> old(self)@.live(p as int),
            depth == old(self)@.depth_below(parent),
        ensures
            final(self)@ == old(self)@.append(path@, name@, is_dir, depth, parent),
            index == old(self)@.nodes.len(),
    {
        let ghost before = self@;
        let ghost path_view = path@;
        let ghost name_view = name@;
        let mut held = FileSystemModel::new();
        core::mem::swap(self, &mut held);
        proof {
            use_type_invariant(&held);
        }
        let FileSystemModel { nodes, path_to_index, root } = held;
        let mut nodes = nodes;
        let mut path_to_index = path_to_index;
        let mut root = root;
        let index = nodes.len();
        let node = FileNode {
            path: path.clone(),
            name,
            is_dir,
            depth,
            children: Vec::new(),
            parent,
        };
        nodes.push(node);
        path_to_index.insert(path, index);
        match parent {
            Some(parent_idx) => {
                nodes[parent_idx].children.push(index);
            },
            None => {
                root = Some(index);
            },
        }
        proof {
            let after = before.append(path_view, name_view, is_dir, depth, parent);
            let now = ModelView { nodes: node_views(nodes@), index: path_to_index@, root };
            assert(now.nodes =~= after.nodes);
            assert(now == after);
            assert(nodes@.len() == nodes.len());
            lemma_append_keeps_invariant(before, path_view, name_view, is_dir, depth, parent);
        }
        *self = FileSystemModel { nodes, path_to_index, root };
        index
    }

    /// Adds a node for `path` unless the path is bound already.
    ///
    /// Returns `None` and leaves the model as it is where the path is bound;
    /// else the new node lies one level below the node bound to its parent
    /// path, or at depth 0 where there is none, and its index is returned.
    pub fn add_node(&mut self, path: String, is_dir: bool) -> (added: Option<usize>)
        ensures
            final(self)@ == old(self)@.add(path@, is_dir),
            final(self)@.wf(),
            added == if old(self)@.index.contains_key(path@) {
                None
            } else {
                Some(old(self)@.nodes.len() as usize)
            },
    {
        let name = display_name(&path);
        self.add_named(path, name, is_dir)
    }

    /// Adds a node for `path` under the display name `name` unless the path
    /// is bound already; `add_node` with the name given by the caller.
    pub fn add_named(&mut self, path: String, name: String, is_dir: bool) -> (added: Option<usize>)
        ensures
            final(self)@ == old(self)@.add_named(path@, name@, is_dir),
            final(self)@.wf(),
            added == if old(self)@.index.contains_key(path@) {
                None
            } else {
                Some(old(self)@.nodes.len() as usize)
            },
    {
        let parent_path = path_parent(&path);
        self.add_below(path, name, is_dir, parent_path)
    }

    /// Adds a node for `path` under the display name `name`, with
    /// `parent_path` as the path of its parent, unless `path` is bound
    /// already; `add_named` with the parent's path given by the caller.
    ///
    /// The new node lies one level below the node bound to `parent_path`.
    /// Where no node is bound to it, or none is given, the new node lies at
    /// depth 0 and becomes the recorded root.
    pub fn add_below(
        &mut self,
        path: String,
        name: String,
        is_dir: bool,
        parent_path: Option<String>,
    ) -> (added: Option<usize>)
        ensures
            final(self)@ == old(self)@.add_below(path@, name@, is_dir, text_of(parent_path)),
            final(self)@.wf(),
            added == if old(self)@.index.contains_key(path@) {
                None
            } else {
                Some(old(self)@.nodes.len() as usize)
            },
    {
        proof {
            use_type_invariant(&*self);
        }
        if self.path_to_index.contains_key(&path) {
            return None;
        }
        let parent = match parent_path {
            Some(pp) => self.path_to_index.get(&pp),
            None => None,
        };
        let depth: usize = match parent {
            Some(parent_idx) => {
                assert(self@.live(parent_idx as int));
                assert(self@.nodes[parent_idx as int].depth <= parent_idx) by {
                    let _ = self@.nodes[parent_idx as int];
                }
                self.nodes[parent_idx].depth + 1
            },
            None => 0,
        };
        let index = self.add_node_internal(path, name, is_dir, depth, parent);
        proof {
            use_type_invariant(&*self);
        }
        Some(index)
    }

    /// Removes `path` from the model unless it is unbound.
    ///
    /// Returns `None` and leaves the model as it is where the path is
    /// unbound; else unbinds it, takes its node out of its parent's child
    /// list, empties the node's own child list and returns the node's index.
    /// The slot stays, so every other index means what it meant before.
    pub fn remove_node(&mut self, path: &String) -> (removed: Option<usize>)
        ensures
            final(self)@ == old(self)@.remove(path@),
            final(self)@.wf(),
            removed == if old(self)@.index.contains_key(path@) {
                Some(old(self)@.index[path@])
            } else {
                None
            },
    {
        let ghost before = self@;
        let mut held = FileSystemModel::new();
        core::mem::swap(self, &mut held);
        proof {
            use_type_invariant(&held);
        }
        let FileSystemModel { nodes, path_to_index, root } = held;
        let mut nodes = nodes;
        let mut path_to_index = path_to_index;
        let removed = match path_to_index.remove(path) {
            Some(index) => {
                assert(index < nodes@.len() && before.nodes[index as int].path == path@);
                match nodes[index].parent {
                    Some(parent_idx) => {
                        assert(parent_idx < index) by {
                            let _ = before.nodes[index as int];
                        }
                        let kept = keep_other_than(&nodes[parent_idx].children, index);
                        nodes[parent_idx].children = kept;
                    },
                    None => {},
                }
                nodes[index].children.clear();
                proof {
                    let after = before.remove(path@);
                    let now = node_views(nodes@);
                    assert(now.len() == after.nodes.len());
                    assert forall|i: int| 0 <= i < after.nodes.len() implies now[i] == after.nodes[i] by {
                        assert(now[i] == nodes@[i]@);
                        if i == index {
                            assert(nodes@[i].children@ =~= Seq::<usize>::empty());
                        }
                    }
                    assert(now =~= after.nodes);
                }
                Some(index)
            },
            None => {
                assert(node_views(nodes@) =~= before.nodes);
                assert(path_to_index@ =~= before.index);
                None
            },
        };
        proof {
            let now = ModelView { nodes: node_views(nodes@), index: path_to_index@, root };
            assert(now == before.remove(path@));
            lemma_remove_keeps_invariant(before, path@);
        }
        *self = FileSystemModel { nodes, path_to_index, root };
        removed
    }

    /// The node at `index`, or `None` past the end of the node vector.
    pub fn get_node(&self, index: usize) -> (node: Option<&FileNode>)
        ensures
            match node {
                Some(n) => index < self@.nodes.len() && n@ == self@.nodes[index as int],
                None => index >= self@.nodes.len(),
            },
    {
        if index < self.nodes.len() {
            Some(&self.nodes[index])
        } else {
            None
        }
    }

    /// The index and the node bound to `path`, or `None` where it is unbound.
    pub fn get_node_by_path(&self, path: &String) -> (found: Option<(usize, &FileNode)>)
        ensures
            match found {
                Some((index, node)) => {
                    &&& self@.index.contains_key(path@)
                    &&& index == self@.index[path@]
                    &&& index < self@.nodes.len()
                    &&& node@ == self@.nodes[index as int]
                    &&& node.path@ == path@
                },
                None => !self@.index.contains_key(path@),
            },
    {
        proof {
            use_type_invariant(self);
        }
        match self.path_to_index.get(path) {
            Some(index) => {
                assert(self@.nodes[index as int].path == path@);
                Some((index, &self.nodes[index]))
            },
            None => None,
        }
    }

    /// The place of the node `index` in the child list of its parent; 0 for
    /// a node without a parent, for one that its parent no longer lists, and
    /// for an index that the model does not have.
    pub fn index_in_parent(&self, index: usize) -> (place: usize)
        ensures
            place == if index < self@.nodes.len() {
                self@.index_in_parent(index as int)
            } else {
                0
            },
    {
        proof {
            use_type_invariant(self);
        }
        if index >= self.nodes.len() {
            return 0;
        }
        match self.nodes[index].parent {
            Some(parent_idx) => {
                assert(parent_idx < index) by {
                    let _ = self@.nodes[index as int];
                }
                let children = &self.nodes[parent_idx].children;
                let mut k: usize = 0;
                while k < children.len()
                    invariant
                        k <= children@.len(),
                        index < self.nodes@.len(),
                        parent_idx < self.nodes@.len(),
                        self@.nodes[index as int].parent == Some(parent_idx),
                        children@ == self@.nodes[parent_idx as int].children,
                        forall|j: int| 0 <= j < k ==> children@[j] != index,
                    decreases children@.len() - k,
                {
                    if children[k] == index {
                        proof {
                            let list = children@;
                            assert(list[k as int] == index);
                            assert(list.contains(index));
                            assert(0 <= k < list.len() && list[k as int] == index && forall|j: int|
                                0 <= j < k ==> list[j] != index);
                            let chosen = first_place(list, index);
                            assert(0 <= chosen < list.len() && list[chosen] == index && forall|j: int|
                                0 <= j < chosen ==> list[j] != index);
                            if chosen < k {
                                assert(list[chosen] != index);
                            } else if k < chosen {
                                assert(list[k as int] != index);
                            }
                        }
                        return k;
                    }
                    k += 1;
                }
                proof {
                    assert(!children@.contains(index));
                }
                0
            },
            None => 0,
        }
    }

    /// The number of node slots, removed ones included.
    pub fn total_nodes(&self) -> (n: usize)
        ensures
            n == self@.nodes.len(),
    {
        self.nodes.len()
    }
}

/// The indices of `children` other than `index`, in their order.
fn keep_other_than(children: &Vec<usize>, index: usize) -> (kept: Vec<usize>)
    ensures
        kept@ == children@.filter(other_than(index)),
{
    let mut kept: Vec<usize> = Vec::new();
    let mut i: usize = 0;
    proof {
        reveal(Seq::filter);
        assert(children@.take(0) =~= Seq::<usize>::empty());
    }
    while i < children.len()
        invariant
            i <= children@.len(),
            kept@ == children@.take(i as int).filter(other_than(index)),
        decreases children@.len() - i,
    {
        proof {
            reveal(Seq::filter);
            assert(children@.take(i + 1).drop_last() =~= children@.take(i as int));
            assert(children@.take(i + 1).last() == children@[i as int]);
        }
        if children[i] != index {
            kept.push(children[i]);
        }
        i += 1;
    }
    assert(children@.take(i as int) =~= children@);
    kept
}

} // verus!
