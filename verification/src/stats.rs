//! How often each file has been visited, and which files have been visited
//! most.

use vstd::prelude::*;
use crate::agent::AgentArrivedEvent;
use crate::fs_model::{FileNodeView, FileSystemModel};

verus! {

/// The number of arrivals at one path.
#[derive(Debug)]
pub struct VisitCount {
    pub path: String,
    pub count: usize,
}

/// What a `VisitCount` holds, as mathematical values.
pub struct VisitCountView {
    pub path: Seq<char>,
    pub count: usize,
}

impl View for VisitCount {
    type V = VisitCountView;

    open spec fn view(&self) -> VisitCountView {
        VisitCountView { path: self.path@, count: self.count }
    }
}

/// The visit counts, in the order in which the paths were first visited.
/// No path is counted twice.
pub struct FileStats {
    visits: Vec<VisitCount>,
}

impl View for FileStats {
    type V = Seq<VisitCountView>;

    closed spec fn view(&self) -> Seq<VisitCountView> {
        self.visits@.map_values(|v: VisitCount| v@)
    }
}

/// Whether `path` has a count among `visits`.
pub open spec fn is_counted(visits: Seq<VisitCountView>, path: Seq<char>) -> bool {
    exists|i: int| 0 <= i < visits.len() && visits[i].path == path
}

/// The first place at which `path` has a count among `visits`.
pub open spec fn place_of_path(visits: Seq<VisitCountView>, path: Seq<char>) -> int {
    choose|i: int|
        0 <= i < visits.len() && visits[i].path == path && forall|j: int|
            0 <= j < i ==> visits[j].path != path
}

/// One more than `count`, as far as the machine can count.
pub open spec fn one_more(count: usize) -> usize {
    if count < usize::MAX {
        (count + 1) as usize
    } else {
        count
    }
}

/// The counts after one more visit of `path`: its count goes up by one, or
/// it gets a count of one at the end of the list, where it had none.
pub open spec fn with_visit(visits: Seq<VisitCountView>, path: Seq<char>) -> Seq<VisitCountView> {
    if is_counted(visits, path) {
        let i = place_of_path(visits, path);
        visits.update(i, VisitCountView { path, count: one_more(visits[i].count) })
    } else {
        visits.push(VisitCountView { path, count: 1 })
    }
}

/// The counts after the arrivals of one tick, taken in their order: each
/// arrival at a node that exists is one more visit of that node's path.
pub open spec fn with_arrivals(
    visits: Seq<VisitCountView>,
    node_paths: Seq<Seq<char>>,
    arrivals: Seq<AgentArrivedEvent>,
) -> Seq<VisitCountView>
    decreases arrivals.len(),
{
    if arrivals.len() == 0 {
        visits
    } else {
        let earlier = with_arrivals(visits, node_paths, arrivals.drop_last());
        let node = arrivals.last().node_index;
        if node < node_paths.len() {
            with_visit(earlier, node_paths[node as int])
        } else {
            earlier
        }
    }
}

/// No path is counted twice.
pub open spec fn counted_once(visits: Seq<VisitCountView>) -> bool {
    forall|i: int, j: int| 0 <= i < j < visits.len() ==> visits[i].path != visits[j].path
}

/// Whether entry `i` ranks before entry `j`: it has more visits, or as many
/// and was visited first.
pub open spec fn ranks_before(visits: Seq<VisitCountView>, i: int, j: int) -> bool {
    visits[i].count > visits[j].count || (visits[i].count == visits[j].count && i < j)
}

impl FileStats {
    #[verifier::type_invariant]
    spec fn counts_each_path_once(&self) -> bool {
        counted_once(self@)
    }

    /// No visits yet.
    pub fn new() -> (stats: Self)
        ensures
            stats@ == Seq::<VisitCountView>::empty(),
    {
        let stats = FileStats { visits: Vec::new() };
        assert(stats@ =~= Seq::<VisitCountView>::empty());
        stats
    }

    /// The counts, in the order in which the paths were first visited.
    pub fn visits(&self) -> (visits: &Vec<VisitCount>)
        ensures
            visits@.map_values(|v: VisitCount| v@) == self@,
            counted_once(self@),
    {
        proof {
            use_type_invariant(self);
        }
        &self.visits
    }

    /// The place of the count of `path`, if it has one.
    fn find(&self, path: &String) -> (place: Option<usize>)
        ensures
            match place {
                Some(i) => is_counted(self@, path@) && i == place_of_path(self@, path@) && i
                    < self.visits@.len(),
                None => !is_counted(self@, path@),
            },
    {
        let mut i: usize = 0;
        while i < self.visits.len()
            invariant
                i <= self.visits@.len(),
                forall|k: int| 0 <= k < i ==> self@[k].path != path@,
            decreases self.visits@.len() - i,
        {
            if self.visits[i].path == *path {
                proof {
                    let list = self@;
                    assert(list[i as int].path == path@);
                    assert(0 <= i < list.len() && list[i as int].path == path@ && forall|j: int|
                        0 <= j < i ==> list[j].path != path@);
                    let chosen = place_of_path(list, path@);
                    assert(0 <= chosen < list.len() && list[chosen].path == path@ && forall|j: int|
                        0 <= j < chosen ==> list[j].path != path@);
                    if chosen < i {
                        assert(list[chosen].path != path@);
                    } else if i < chosen {
                        assert(list[i as int].path != path@);
                    }
                }
                return Some(i);
            }
            i += 1;
        }
        None
    }

    /// The number of visits counted for `path`; 0 for a path without a
    /// count.
    pub fn count(&self, path: &String) -> (n: usize)
        ensures
            n == if is_counted(self@, path@) {
                self@[place_of_path(self@, path@)].count
            } else {
                0
            },
    {
        match self.find(path) {
            Some(i) => self.visits[i].count,
            None => 0,
        }
    }

    /// Counts one more visit of `path`. A count that has reached the largest
    /// number stays there.
    pub fn record_visit(&mut self, path: &String)
        ensures
            final(self)@ == with_visit(old(self)@, path@),
    {
        let ghost before = self@;
        let place = self.find(path);
        let mut held = FileStats::new();
        core::mem::swap(self, &mut held);
        proof {
            use_type_invariant(&held);
        }
        let FileStats { visits } = held;
        let mut visits = visits;
        match place {
            Some(i) => {
                if visits[i].count < usize::MAX {
                    visits[i].count = visits[i].count + 1;
                }
            },
            None => {
                visits.push(VisitCount { path: path.clone(), count: 1 });
            },
        }
        proof {
            let after = visits@.map_values(|v: VisitCount| v@);
            assert(after =~= with_visit(before, path@));
            assert forall|a: int, b: int| 0 <= a < b < after.len() implies after[a].path
                != after[b].path by {
                if b < before.len() {
                    assert(before[a].path != before[b].path);
                } else {
                    assert(before[a].path != path@);
                }
            }
        }
        *self = FileStats { visits };
    }

    /// Counts the arrivals of one tick: each arrival at a node of the model
    /// is one more visit of that node's path; an arrival at an index that
    /// the model does not have is passed over.
    pub fn track_file_visits(&mut self, model: &FileSystemModel, arrivals: &Vec<AgentArrivedEvent>)
        ensures
            final(self)@ == with_arrivals(
                old(self)@,
                model@.nodes.map_values(|n: FileNodeView| n.path),
                arrivals@,
            ),
    {
        let ghost paths = model@.nodes.map_values(|n: FileNodeView| n.path);
        let ghost before = self@;
        let mut k: usize = 0;
        assert(arrivals@.take(0) =~= Seq::<AgentArrivedEvent>::empty());
        while k < arrivals.len()
            invariant
                k <= arrivals@.len(),
                paths == model@.nodes.map_values(|n: FileNodeView| n.path),
                self@ == with_arrivals(before, paths, arrivals@.take(k as int)),
            decreases arrivals@.len() - k,
        {
            proof {
                assert(arrivals@.take(k + 1).drop_last() =~= arrivals@.take(k as int));
                assert(arrivals@.take(k + 1).last() == arrivals@[k as int]);
            }
            match model.get_node(arrivals[k].node_index) {
                Some(node) => {
                    assert(paths[arrivals@[k as int].node_index as int] == node.path@);
                    self.record_visit(&node.path);
                },
                None => {},
            }
            k += 1;
        }
        assert(arrivals@.take(k as int) =~= arrivals@);
    }

    /// The places of the most visited paths, at most `limit` of them, most
    /// visited first; among paths with as many visits, the one visited first
    /// comes first.
    ///
    /// The result rises strictly in rank, and every place that it leaves out
    /// ranks after all that it holds, which it does only once `limit` places
    /// are taken.
    pub fn top_visited(&self, limit: usize) -> (top: Vec<usize>)
        ensures
            top@.len() == if limit < self@.len() {
                limit as int
            } else {
                self@.len() as int
            },
            forall|k: int| 0 <= k < top@.len() ==> (#[trigger] top@[k]) < self@.len(),
            forall|k: int, l: int|
                0 <= k < l < top@.len() ==> #[trigger] ranks_before(
                    self@,
                    top@[k] as int,
                    top@[l] as int,
                ),
            forall|j: usize| j < self@.len() && !(#[trigger] top@.contains(j)) ==> top@.len() == limit,
            forall|j: usize, k: int|
                j < self@.len() && !top@.contains(j) && 0 <= k < top@.len() ==> #[trigger] ranks_before(
                    self@,
                    top@[k] as int,
                    j as int,
                ),
    {
        let mut top: Vec<usize> = Vec::new();
        let total = self.visits.len();
        while top.len() < limit
            invariant
                total == self@.len(),
                top@.len() <= limit,
                forall|k: int| 0 <= k < top@.len() ==> (#[trigger] top@[k]) < total,
                forall|k: int, l: int|
                    0 <= k < l < top@.len() ==> #[trigger] ranks_before(
                        self@,
                        top@[k] as int,
                        top@[l] as int,
                    ),
                forall|j: usize, k: int|
                    j < total && !top@.contains(j) && 0 <= k < top@.len() ==> #[trigger] ranks_before(
                        self@,
                        top@[k] as int,
                        j as int,
                    ),
            decreases limit - top@.len(),
        {
            // the best place that is not taken yet
            let mut best: Option<usize> = None;
            let mut j: usize = 0;
            while j < total
                invariant
                    j <= total,
                    total == self@.len(),
                    match best {
                        Some(b) => b < j && !top@.contains(b) && forall|i: usize|
                            i < j && !(#[trigger] top@.contains(i)) && i != b ==> ranks_before(
                                self@,
                                b as int,
                                i as int,
                            ),
                        None => forall|i: usize| i < j ==> #[trigger] top@.contains(i),
                    },
                decreases total - j,
            {
                if !Self::holds(&top, j) {
                    match best {
                        Some(b) => {
                            if self.visits[j].count > self.visits[b].count {
                                best = Some(j);
                            }
                        },
                        None => {
                            best = Some(j);
                        },
                    }
                }
                j += 1;
            }
            match best {
                Some(b) => {
                    let ghost taken = top@;
                    top.push(b);
                    proof {
                        assert forall|k: int, l: int| 0 <= k < l < top@.len() implies #[trigger] ranks_before(
                            self@,
                            top@[k] as int,
                            top@[l] as int,
                        ) by {
                            assert(top@[k] == taken[k]);
                            if l < taken.len() {
                                assert(top@[l] == taken[l]);
                                assert(ranks_before(self@, taken[k] as int, taken[l] as int));
                            } else {
                                assert(ranks_before(self@, taken[k] as int, b as int));
                            }
                        }
                        assert forall|i: usize, k: int|
                            i < total && !top@.contains(i) && 0 <= k < top@.len() implies #[trigger] ranks_before(
                            self@,
                            top@[k] as int,
                            i as int,
                        ) by {
                            if taken.contains(i) {
                                let at = choose|at: int| 0 <= at < taken.len() && taken[at] == i;
                                assert(top@[at] == i);
                            }
                            if i == b {
                                assert(top@[taken.len() as int] == b);
                            }
                            if k < taken.len() {
                                assert(top@[k] == taken[k]);
                                assert(ranks_before(self@, taken[k] as int, i as int));
                            }
                        }
                    }
                },
                None => {
                    proof {
                        assert(self@.len() == self.visits.len());
                        lemma_places_are_counted(self@, top@);
                    }
                    return top;
                },
            }
        }
        proof {
            assert(self@.len() == self.visits.len());
            lemma_places_are_counted(self@, top@);
        }
        top
    }

    /// Whether `place` is among `places`.
    fn holds(places: &Vec<usize>, place: usize) -> (found: bool)
        ensures
            found == places@.contains(place),
    {
        let mut k: usize = 0;
        while k < places.len()
            invariant
                k <= places@.len(),
                forall|i: int| 0 <= i < k ==> places@[i] != place,
            decreases places@.len() - k,
        {
            if places[k] == place {
                return true;
            }
            k += 1;
        }
        false
    }
}

/// A list of places that rises strictly in rank names no place twice, so it
/// is no longer than the list of counts, and as long where it names every
/// place.
pub proof fn lemma_places_are_counted(visits: Seq<VisitCountView>, places: Seq<usize>)
    requires
        visits.len() <= usize::MAX,
        forall|k: int| 0 <= k < places.len() ==> (#[trigger] places[k]) < visits.len(),
        forall|k: int, l: int|
            0 <= k < l < places.len() ==> #[trigger] ranks_before(
                visits,
                places[k] as int,
                places[l] as int,
            ),
    ensures
        places.len() <= visits.len(),
        (forall|j: usize| j < visits.len() ==> #[trigger] places.contains(j)) ==> places.len()
            == visits.len(),
{
    let n = visits.len() as int;
    let ints = places.map_values(|p: usize| p as int);
    assert forall|k: int, l: int| 0 <= k < ints.len() && 0 <= l < ints.len() && k != l implies ints[k]
        != ints[l] by {
        if k < l {
            assert(ranks_before(visits, places[k] as int, places[l] as int));
        } else {
            assert(ranks_before(visits, places[l] as int, places[k] as int));
        }
    }
    ints.unique_seq_to_set();
    vstd::set_lib::lemma_int_range(0, n);
    let range = vstd::set_lib::set_int_range(0, n);
    assert forall|x: int| ints.to_set().contains(x) implies range.contains(x) by {
        let k = choose|k: int| 0 <= k < ints.len() && ints[k] == x;
        assert(places[k] < visits.len());
    }
    vstd::set_lib::lemma_len_subset(ints.to_set(), range);
    if forall|j: usize| j < visits.len() ==> #[trigger] places.contains(j) {
        assert forall|x: int| range.contains(x) implies ints.to_set().contains(x) by {
            assert(0 <= x < n);
            let j = x as usize;
            assert(places.contains(j));
            let k = choose|k: int| 0 <= k < places.len() && places[k] == j;
            assert(ints[k] == x);
        }
        vstd::set_lib::lemma_len_subset(range, ints.to_set());
    }
}

} // verus!
