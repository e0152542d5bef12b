//! The recent tool uses on each node: the last ten, oldest first.

use vstd::prelude::*;
use std::collections::HashMap;

verus! {

/// The most entries that the history keeps for one node.
pub const HISTORY_LIMIT: usize = 10;

/// One use of a tool on a file.
#[derive(Debug)]
pub struct FileEvent {
    pub tool_name: String,
    pub session_id: String,
    pub timestamp: Option<String>,
}

/// What a `FileEvent` holds, as mathematical values.
pub struct FileEventView {
    pub tool_name: Seq<char>,
    pub session_id: Seq<char>,
    pub timestamp: Option<Seq<char>>,
}

impl View for FileEvent {
    type V = FileEventView;

    open spec fn view(&self) -> FileEventView {
        FileEventView {
            tool_name: self.tool_name@,
            session_id: self.session_id@,
            timestamp: match self.timestamp {
                Some(t) => Some(t@),
                None => None,
            },
        }
    }
}

/// The history of each node, by node index. No node has more entries than
/// the limit.
pub struct FileEventHistory {
    map: HashMap<usize, Vec<FileEvent>>,
}

/// No node of `history` has more entries than the limit.
pub open spec fn within_limit(history: Map<usize, Seq<FileEventView>>) -> bool {
    forall|node: usize| #[trigger]
        history.contains_key(node) ==> history[node].len() <= HISTORY_LIMIT
}

/// A history after one more entry: the entry goes to the end, and the oldest
/// entry is dropped where the limit would be passed.
pub open spec fn with_entry(events: Seq<FileEventView>, entry: FileEventView) -> Seq<FileEventView> {
    if events.len() + 1 > HISTORY_LIMIT {
        events.push(entry).drop_first()
    } else {
        events.push(entry)
    }
}

impl View for FileEventHistory {
    type V = Map<usize, Seq<FileEventView>>;

    closed spec fn view(&self) -> Map<usize, Seq<FileEventView>> {
        self.map@.map_values(|events: Vec<FileEvent>| events@.map_values(|e: FileEvent| e@))
    }
}

impl FileEventHistory {
    /// The invariant of the history.
    #[verifier::type_invariant]
    pub open spec fn inv(&self) -> bool {
        within_limit(self@)
    }

    /// The entries recorded for `node`, oldest first; none for a node that
    /// was never touched.
    pub open spec fn spec_events(&self, node: usize) -> Seq<FileEventView> {
        if self@.contains_key(node) {
            self@[node]
        } else {
            Seq::empty()
        }
    }

    /// The history without entries.
    pub fn new() -> (history: Self)
        ensures
            history@ == Map::<usize, Seq<FileEventView>>::empty(),
    {
        let history = FileEventHistory { map: HashMap::new() };
        assert(history@ =~= Map::<usize, Seq<FileEventView>>::empty());
        history
    }

    /// Appends `event` to the history of `node` and drops the node's oldest
    /// entry where that makes more than the limit.
    pub fn record(&mut self, node: usize, event: FileEvent)
        ensures
            final(self)@ == old(self)@.insert(node, with_entry(old(self).spec_events(node), event@)),
            within_limit(final(self)@),
    {
        broadcast use vstd::std_specs::hash::group_hash_axioms;

        let ghost before = self@;
        let ghost entry = event@;
        let mut held = FileEventHistory::new();
        core::mem::swap(self, &mut held);
        proof {
            use_type_invariant(&held);
        }
        let FileEventHistory { map } = held;
        let mut map = map;
        let mut events = match map.remove(&node) {
            Some(events) => events,
            None => Vec::new(),
        };
        assert(events@.map_values(|e: FileEvent| e@) =~= old(self).spec_events(node));
        events.push(event);
        if events.len() > HISTORY_LIMIT {
            events.remove(0);
        }
        assert(events@.map_values(|e: FileEvent| e@) =~= with_entry(
            old(self).spec_events(node),
            entry,
        ));
        map.insert(node, events);
        proof {
            let now = map@.map_values(
                |events: Vec<FileEvent>| events@.map_values(|e: FileEvent| e@),
            );
            assert(now =~= before.insert(node, with_entry(old(self).spec_events(node), entry)));
            assert(within_limit(now));
        }
        *self = FileEventHistory { map };
    }

    /// The entries recorded for `node`, oldest first, or `None` for a node
    /// that was never touched.
    pub fn events(&self, node: usize) -> (events: Option<&Vec<FileEvent>>)
        ensures
            match events {
                Some(list) => self@.contains_key(node) && list@.map_values(|e: FileEvent| e@)
                    == self@[node] && list@.len() <= HISTORY_LIMIT,
                None => !self@.contains_key(node),
            },
    {
        broadcast use vstd::std_specs::hash::group_hash_axioms;

        proof {
            use_type_invariant(self);
        }
        self.map.get(&node)
    }
}

/// The node under the pointer, if the pointer is over one.
#[derive(Debug, Clone, Copy, PartialEq, Eq, Structural)]
pub struct HoveredFile(pub Option<usize>);

impl HoveredFile {
    /// Nothing is under the pointer.
    pub fn new() -> (hovered: Self)
        ensures
            hovered.0 is None,
    {
        HoveredFile(None)
    }

    /// The pointer has come over `node`.
    pub fn over(&mut self, node: usize)
        ensures
            final(self).0 == Some(node),
    {
        self.0 = Some(node);
    }

    /// The pointer has left `node`. Only the node that is recorded is
    /// cleared: the pointer may have come over another one already.
    pub fn out(&mut self, node: usize)
        ensures
            final(self).0 == if old(self).0 == Some(node) {
                None
            } else {
                old(self).0
            },
    {
        match self.0 {
            Some(current) => {
                if current == node {
                    self.0 = None;
                }
            },
            None => {},
        }
    }
}

} // verus!
