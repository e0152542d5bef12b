//! The agents of all sessions, and what the events of the agent-event source
//! do to them.

use vstd::prelude::*;
use std::collections::VecDeque;
use crate::agent::{Agent, AgentAction, AgentArrivedEvent, AgentView};
use crate::fs_model::FileSystemModel;
use crate::history::{with_entry, within_limit, FileEvent, FileEventHistory, FileEventView};
use crate::label::{action_label, describe_action};
use crate::ws_client::AgentEvent;

verus! {

/// The agents in the order in which they were created, one for each session.
pub struct AgentRegistry<P> {
    agents: Vec<Agent<P>>,
    /// Where a new agent is shown first.
    spawn_position: P,
}

/// The node that a tool use resolved to, and where that node is shown.
#[derive(Debug)]
pub struct MoveTarget<P> {
    /// The path of the file after resolution against the file system.
    pub resolved_path: String,
    pub node_index: usize,
    pub position: P,
}

impl<P> MoveTarget<P> {
    /// Resolves a file to the node that the model binds to its path, and
    /// asks `position_of` where that node is shown. `None` where the path is
    /// not bound: the file is ignored, lies outside the tree, or has gone.
    pub fn resolve<F: Fn(usize) -> P>(
        model: &FileSystemModel,
        resolved_path: String,
        position_of: F,
    ) -> (target: Option<Self>)
        requires
            forall|index: usize| position_of.requires((index,)),
        ensures
            match target {
                Some(t) => {
                    &&& model@.index.contains_key(resolved_path@)
                    &&& t.node_index == model@.index[resolved_path@]
                    &&& t.resolved_path@ == resolved_path@
                    &&& position_of.ensures((t.node_index,), t.position)
                },
                None => !model@.index.contains_key(resolved_path@),
            },
    {
        let found = match model.get_node_by_path(&resolved_path) {
            Some((index, _)) => Some(index),
            None => None,
        };
        match found {
            Some(node_index) => {
                let position = position_of(node_index);
                Some(MoveTarget { resolved_path, node_index, position })
            },
            None => None,
        }
    }
}

/// What an event did to the registry.
#[derive(Debug, Clone, Copy, PartialEq, Eq, Structural)]
pub enum AgentChange {
    /// A new agent was created; it stands at this place in the registry.
    Spawned(usize),
    /// The agent at this place was given work, or its despawn was called
    /// off.
    Updated(usize),
    /// The event needed no change.
    Unchanged,
    /// The tool use named a file that is not in the model, and was dropped.
    Dropped,
}

/// Whether one of `agents` belongs to `session`.
pub open spec fn holds_session<P>(agents: Seq<AgentView<P>>, session: Seq<char>) -> bool {
    exists|i: int| 0 <= i < agents.len() && agents[i].session_id == session
}

/// The place of the agent of `session` among `agents`.
pub open spec fn place_of<P>(agents: Seq<AgentView<P>>, session: Seq<char>) -> int {
    choose|i: int| 0 <= i < agents.len() && agents[i].session_id == session
}

/// No two of `agents` belong to the same session.
pub open spec fn distinct_sessions<P>(agents: Seq<AgentView<P>>) -> bool {
    forall|i: int, j: int| 0 <= i < j < agents.len() ==> agents[i].session_id != agents[j].session_id
}

/// The agents after a session has started: a new session gets a new agent at
/// `spawn`, with nothing to do yet; the agent of a known session is revived
/// if it was despawning and left alone if not.
pub open spec fn after_session_start<P>(agents: Seq<AgentView<P>>, session: Seq<char>, spawn: P) -> Seq<AgentView<P>> {
    if holds_session(agents, session) {
        let i = place_of(agents, session);
        agents.update(i, agents[i].revived())
    } else {
        agents.push(AgentView::spawned(session, Seq::empty(), spawn))
    }
}

/// The agents after a session has used a tool on the node `node_index`,
/// shown at `position`: the session's agent is revived if need be and gets
/// the move and the label; a session without an agent gets a new one at
/// `spawn`, with the move as its first work and no label yet.
pub open spec fn after_tool_use<P>(
    agents: Seq<AgentView<P>>,
    session: Seq<char>,
    position: P,
    node_index: usize,
    label: Seq<char>,
    spawn: P,
) -> Seq<AgentView<P>> {
    if holds_session(agents, session) {
        let i = place_of(agents, session);
        agents.update(i, agents[i].with_work(position, node_index, label))
    } else {
        agents.push(
            AgentView::spawned(session, seq![AgentAction::MoveTo { position, node_index }], spawn),
        )
    }
}

/// What a session start does to the registry, as the caller is told.
pub open spec fn session_start_change<P>(agents: Seq<AgentView<P>>, session: Seq<char>) -> AgentChange {
    if holds_session(agents, session) {
        let i = place_of(agents, session);
        if agents[i].is_despawning() {
            AgentChange::Updated(i as usize)
        } else {
            AgentChange::Unchanged
        }
    } else {
        AgentChange::Spawned(agents.len() as usize)
    }
}

/// What a tool use on a file of the model does to the registry, as the
/// caller is told.
pub open spec fn tool_use_change<P>(agents: Seq<AgentView<P>>, session: Seq<char>) -> AgentChange {
    if holds_session(agents, session) {
        AgentChange::Updated(place_of(agents, session) as usize)
    } else {
        AgentChange::Spawned(agents.len() as usize)
    }
}

/// The history entry for a tool use.
pub open spec fn entry_for(tool_name: Seq<char>, session: Seq<char>, timestamp: Option<String>) -> FileEventView {
    FileEventView {
        tool_name,
        session_id: session,
        timestamp: match timestamp {
            Some(t) => Some(t@),
            None => None,
        },
    }
}

/// One event of the agent-event source together with what the surroundings
/// found out about it: for a tool use, the node that its file resolved to.
#[derive(Debug)]
pub struct ResolvedEvent<P> {
    pub event: AgentEvent,
    pub target: Option<MoveTarget<P>>,
}

/// The agents after one event.
pub open spec fn after_event<P>(agents: Seq<AgentView<P>>, resolved: ResolvedEvent<P>, spawn: P) -> Seq<AgentView<P>> {
    match resolved.event {
        AgentEvent::SessionStart { session_id, .. } => after_session_start(agents, session_id@, spawn),
        AgentEvent::ToolUse { session_id, tool_name, file_path, .. } => match resolved.target {
            Some(t) => after_tool_use(
                agents,
                session_id@,
                t.position,
                t.node_index,
                action_label(tool_name@, t.resolved_path@, file_path@),
                spawn,
            ),
            None => agents,
        },
    }
}

/// The history after one event: a tool use on a node of the model is
/// recorded for that node, and nothing else is.
pub open spec fn history_after_event<P>(
    history: Map<usize, Seq<FileEventView>>,
    resolved: ResolvedEvent<P>,
) -> Map<usize, Seq<FileEventView>> {
    match resolved.event {
        AgentEvent::SessionStart { .. } => history,
        AgentEvent::ToolUse { session_id, tool_name, timestamp, .. } => match resolved.target {
            Some(t) => history.insert(
                t.node_index,
                with_entry(
                    if history.contains_key(t.node_index) {
                        history[t.node_index]
                    } else {
                        Seq::empty()
                    },
                    entry_for(tool_name@, session_id@, timestamp),
                ),
            ),
            None => history,
        },
    }
}

/// What one event does to the registry, as the caller is told.
pub open spec fn change_by_event<P>(agents: Seq<AgentView<P>>, resolved: ResolvedEvent<P>) -> AgentChange {
    match resolved.event {
        AgentEvent::SessionStart { session_id, .. } => session_start_change(agents, session_id@),
        AgentEvent::ToolUse { session_id, .. } => match resolved.target {
            Some(_) => tool_use_change(agents, session_id@),
            None => AgentChange::Dropped,
        },
    }
}

/// The agents after a run of events, taken in their order.
pub open spec fn after_events<P>(agents: Seq<AgentView<P>>, events: Seq<ResolvedEvent<P>>, spawn: P) -> Seq<AgentView<P>>
    decreases events.len(),
{
    if events.len() == 0 {
        agents
    } else {
        after_event(after_events(agents, events.drop_last(), spawn), events.last(), spawn)
    }
}

/// The history after a run of events, taken in their order.
pub open spec fn history_after_events<P>(
    history: Map<usize, Seq<FileEventView>>,
    events: Seq<ResolvedEvent<P>>,
) -> Map<usize, Seq<FileEventView>>
    decreases events.len(),
{
    if events.len() == 0 {
        history
    } else {
        history_after_event(history_after_events(history, events.drop_last()), events.last())
    }
}

/// What each event of a run does to the registry, in the order of the
/// events.
pub open spec fn changes_by_events<P>(agents: Seq<AgentView<P>>, events: Seq<ResolvedEvent<P>>, spawn: P) -> Seq<AgentChange>
    decreases events.len(),
{
    if events.len() == 0 {
        Seq::empty()
    } else {
        changes_by_events(agents, events.drop_last(), spawn).push(
            change_by_event(after_events(agents, events.drop_last(), spawn), events.last()),
        )
    }
}

/// The agents after each has been advanced by `dt` microseconds.
pub open spec fn after_tick<P>(agents: Seq<AgentView<P>>, dt: u64) -> Seq<AgentView<P>> {
    agents.map_values(|a: AgentView<P>| a.step(dt))
}

/// The arrivals that a tick of `dt` microseconds announces, in the order of
/// the agents.
pub open spec fn arrivals_of<P>(agents: Seq<AgentView<P>>, dt: u64) -> Seq<AgentArrivedEvent> {
    agents.filter_map(|a: AgentView<P>| a.arrival(dt))
}

/// The agents that have not faded out, in their order.
pub open spec fn survivors<P>(agents: Seq<AgentView<P>>) -> Seq<AgentView<P>> {
    agents.filter(|a: AgentView<P>| !a.is_finished())
}

/// The sessions of the agents that have faded out, in the order of the
/// agents.
pub open spec fn finished_sessions<P>(agents: Seq<AgentView<P>>) -> Seq<Seq<char>> {
    agents.filter_map(
        |a: AgentView<P>|
            if a.is_finished() {
                Some(a.session_id)
            } else {
                None
            },
    )
}

/// What a list of agents holds, as mathematical values.
pub open spec fn views<P>(agents: Seq<Agent<P>>) -> Seq<AgentView<P>> {
    agents.map_values(|a: Agent<P>| a@)
}

impl<P> View for AgentRegistry<P> {
    type V = Seq<AgentView<P>>;

    closed spec fn view(&self) -> Seq<AgentView<P>> {
        views(self.agents@)
    }
}

impl<P> AgentRegistry<P> {
    /// The invariant of the registry: one agent for each session.
    #[verifier::type_invariant]
    pub open spec fn inv(&self) -> bool {
        distinct_sessions(self@)
    }

    /// Where a new agent is shown first.
    pub closed spec fn spec_spawn_position(&self) -> P {
        self.spawn_position
    }

    /// The registry without agents; new agents will be shown at
    /// `spawn_position` first.
    pub fn new(spawn_position: P) -> (registry: Self)
        ensures
            registry@ == Seq::<AgentView<P>>::empty(),
            registry.spec_spawn_position() == spawn_position,
    {
        let registry = AgentRegistry { agents: Vec::new(), spawn_position };
        assert(registry@ =~= Seq::<AgentView<P>>::empty());
        registry
    }

    /// The registry of the given agents, in their order, or `None` where two
    /// of them belong to the same session.
    pub fn from_agents(agents: Vec<Agent<P>>, spawn_position: P) -> (registry: Option<Self>)
        ensures
            match registry {
                Some(r) => distinct_sessions(views(agents@)) && r@ == views(agents@)
                    && r.spec_spawn_position() == spawn_position,
                None => !distinct_sessions(views(agents@)),
            },
    {
        let ghost list = views(agents@);
        let mut j: usize = 0;
        while j < agents.len()
            invariant
                j <= agents@.len(),
                list == views(agents@),
                forall|a: int, b: int| 0 <= a < b < j ==> list[a].session_id != list[b].session_id,
            decreases agents@.len() - j,
        {
            let mut i: usize = 0;
            while i < j
                invariant
                    i <= j < agents@.len(),
                    list == views(agents@),
                    forall|a: int| 0 <= a < i ==> list[a].session_id != list[j as int].session_id,
                decreases j - i,
            {
                if agents[i].session_id == agents[j].session_id {
                    assert(list[i as int].session_id == list[j as int].session_id);
                    return None;
                }
                i += 1;
            }
            j += 1;
        }
        Some(AgentRegistry { agents, spawn_position })
    }

    /// The agents, in the order in which they were created.
    pub fn agents(&self) -> (agents: &Vec<Agent<P>>)
        ensures
            views(agents@) == self@,
            distinct_sessions(self@),
    {
        proof {
            use_type_invariant(self);
        }
        &self.agents
    }

    /// Where a new agent is shown first.
    pub fn spawn_position(&self) -> (position: P)
        where
            P: Copy,
        ensures
            position == self.spec_spawn_position(),
    {
        self.spawn_position
    }

    /// Takes the agents out and leaves the registry empty.
    fn take_agents(&mut self) -> (agents: Vec<Agent<P>>)
        where
            P: Copy,
        ensures
            views(agents@) == old(self)@,
            distinct_sessions(old(self)@),
            final(self)@ == Seq::<AgentView<P>>::empty(),
            final(self).spec_spawn_position() == old(self).spec_spawn_position(),
    {
        let mut held = AgentRegistry::new(self.spawn_position);
        core::mem::swap(self, &mut held);
        proof {
            use_type_invariant(&held);
        }
        let AgentRegistry { agents, spawn_position: _ } = held;
        agents
    }

    /// Puts agents into the registry, in place of those it holds.
    fn put_agents(&mut self, agents: Vec<Agent<P>>)
        where
            P: Copy,
        requires
            distinct_sessions(views(agents@)),
        ensures
            final(self)@ == views(agents@),
            final(self).spec_spawn_position() == old(self).spec_spawn_position(),
    {
        let spawn_position = self.spawn_position;
        *self = AgentRegistry { agents, spawn_position };
    }

    /// The place of the agent of `session_id`, if the session has one.
    pub fn find(&self, session_id: &String) -> (place: Option<usize>)
        ensures
            match place {
                Some(i) => holds_session(self@, session_id@) && i == place_of(self@, session_id@)
                    && i < self@.len() && self@[i as int].session_id == session_id@,
                None => !holds_session(self@, session_id@),
            },
    {
        proof {
            use_type_invariant(self);
        }
        let mut i: usize = 0;
        while i < self.agents.len()
            invariant
                distinct_sessions(self@),
                i <= self.agents@.len(),
                forall|k: int| 0 <= k < i ==> self@[k].session_id != session_id@,
            decreases self.agents@.len() - i,
        {
            if self.agents[i].session_id == *session_id {
                proof {
                    assert(self@[i as int].session_id == session_id@);
                    assert(holds_session(self@, session_id@));
                    let chosen = place_of(self@, session_id@);
                    assert(0 <= chosen < self@.len() && self@[chosen].session_id == session_id@);
                    if i < chosen {
                        assert(self@[i as int].session_id != self@[chosen].session_id);
                    }
                }
                return Some(i);
            }
            i += 1;
        }
        None
    }

    /// Tells the registry where the agent at `place` is shown now. Says
    /// whether there is an agent at that place.
    pub fn set_position(&mut self, place: usize, position: P) -> (found: bool)
        where
            P: Copy,
        ensures
            found == (place < old(self)@.len()),
            final(self)@ == if found {
                old(self)@.update(
                    place as int,
                    AgentView { position, ..old(self)@[place as int] },
                )
            } else {
                old(self)@
            },
            final(self).spec_spawn_position() == old(self).spec_spawn_position(),
    {
        let ghost before = self@;
        let mut agents = self.take_agents();
        let found = place < agents.len();
        if found {
            agents[place].position = position;
        }
        proof {
            let after = views(agents@);
            assert(after =~= if found {
                before.update(place as int, AgentView { position, ..before[place as int] })
            } else {
                before
            });
            assert forall|a: int, b: int| 0 <= a < b < after.len() implies after[a].session_id
                != after[b].session_id by {
                assert(before[a].session_id != before[b].session_id);
            }
        }
        self.put_agents(agents);
        found
    }

    /// Hands the agent at `place` a move to the node `node_index` at
    /// `position`, with `label` as the description of the work. Says whether
    /// there is an agent at that place.
    pub fn enqueue_move(&mut self, place: usize, position: P, node_index: usize, label: String) -> (found: bool)
        where
            P: Copy,
        ensures
            found == (place < old(self)@.len()),
            final(self)@ == if found {
                old(self)@.update(
                    place as int,
                    old(self)@[place as int].with_work(position, node_index, label@),
                )
            } else {
                old(self)@
            },
            final(self).spec_spawn_position() == old(self).spec_spawn_position(),
    {
        let ghost before = self@;
        let ghost label_view = label@;
        let mut agents = self.take_agents();
        let found = place < agents.len();
        if found {
            agents[place].enqueue_move(position, node_index, label);
        }
        proof {
            let after = views(agents@);
            assert(after =~= if found {
                before.update(
                    place as int,
                    before[place as int].with_work(position, node_index, label_view),
                )
            } else {
                before
            });
            assert forall|a: int, b: int| 0 <= a < b < after.len() implies after[a].session_id
                != after[b].session_id by {
                assert(before[a].session_id != before[b].session_id);
            }
        }
        self.put_agents(agents);
        found
    }

    /// Takes the start of the session `session_id`.
    ///
    /// An unknown session gets a new agent, spawning, with an empty queue.
    /// A known session keeps its agent: a despawn in progress is called
    /// off, and an agent that is not despawning is left as it is.
    pub fn handle_session_start(&mut self, session_id: String) -> (change: AgentChange)
        where
            P: Copy,
        ensures
            final(self)@ == after_session_start(
                old(self)@,
                session_id@,
                old(self).spec_spawn_position(),
            ),
            final(self).spec_spawn_position() == old(self).spec_spawn_position(),
            change == session_start_change(old(self)@, session_id@),
            distinct_sessions(final(self)@),
    {
        let ghost before = self@;
        let found = self.find(&session_id);
        let spawn = self.spawn_position;
        let mut agents = self.take_agents();
        let change = match found {
            Some(i) => {
                let cancelled = agents[i].cancel_despawn();
                proof {
                    let after = views(agents@);
                    assert(after =~= before.update(i as int, before[i as int].revived()));
                    assert forall|a: int, b: int| 0 <= a < b < after.len() implies after[a].session_id
                        != after[b].session_id by {
                        assert(before[a].session_id != before[b].session_id);
                    }
                }
                if cancelled {
                    AgentChange::Updated(i)
                } else {
                    AgentChange::Unchanged
                }
            },
            None => {
                let place = agents.len();
                let agent = Agent::new(session_id, VecDeque::new(), spawn);
                agents.push(agent);
                proof {
                    let after = views(agents@);
                    assert(after =~= before.push(
                        AgentView::spawned(session_id@, Seq::empty(), spawn),
                    ));
                    assert forall|a: int, b: int| 0 <= a < b < after.len() implies after[a].session_id
                        != after[b].session_id by {
                        if b < before.len() {
                            assert(before[a].session_id != before[b].session_id);
                        } else {
                            assert(before[a].session_id != session_id@);
                        }
                    }
                }
                AgentChange::Spawned(place)
            },
        };
        self.put_agents(agents);
        change
    }

    /// Takes the use of the tool `tool_name` by the session `session_id` on
    /// the file that the event named `file_path`. `target` is the node that
    /// the file resolved to, or `None` where the model has no node for it.
    ///
    /// Without a target the event is dropped and nothing changes. With one,
    /// the use goes into the history of the node, and a move to the node goes
    /// to the end of the queue of the session's agent. That agent is created
    /// if the session has none; a despawn in progress is called off.
    pub fn handle_tool_use(
        &mut self,
        history: &mut FileEventHistory,
        session_id: String,
        tool_name: String,
        file_path: String,
        timestamp: Option<String>,
        target: Option<MoveTarget<P>>,
    ) -> (change: AgentChange)
        where
            P: Copy,
        ensures
            final(self).spec_spawn_position() == old(self).spec_spawn_position(),
            distinct_sessions(final(self)@),
            within_limit(final(history)@),
            match target {
                None => {
                    &&& final(self)@ == old(self)@
                    &&& final(history)@ == old(history)@
                    &&& change == AgentChange::Dropped
                },
                Some(t) => {
                    &&& final(self)@ == after_tool_use(
                        old(self)@,
                        session_id@,
                        t.position,
                        t.node_index,
                        action_label(tool_name@, t.resolved_path@, file_path@),
                        old(self).spec_spawn_position(),
                    )
                    &&& final(history)@ == old(history)@.insert(
                        t.node_index,
                        with_entry(
                            old(history).spec_events(t.node_index),
                            entry_for(tool_name@, session_id@, timestamp),
                        ),
                    )
                    &&& change == tool_use_change(old(self)@, session_id@)
                },
            },
    {
        let ghost before = self@;
        proof {
            use_type_invariant(&*self);
            use_type_invariant(&*history);
        }
        match target {
            None => AgentChange::Dropped,
            Some(MoveTarget { resolved_path, node_index, position }) => {
                let label = describe_action(&tool_name, &resolved_path, &file_path);
                let ghost label_view = label@;
                history.record(
                    node_index,
                    FileEvent { tool_name, session_id: session_id.clone(), timestamp },
                );
                let found = self.find(&session_id);
                let spawn = self.spawn_position;
                let mut agents = self.take_agents();
                let change = match found {
                    Some(i) => {
                        agents[i].enqueue_move(position, node_index, label);
                        proof {
                            let after = views(agents@);
                            assert(after =~= before.update(
                                i as int,
                                before[i as int].with_work(position, node_index, label_view),
                            ));
                            assert forall|a: int, b: int| 0 <= a < b < after.len() implies after[a].session_id
                                != after[b].session_id by {
                                assert(before[a].session_id != before[b].session_id);
                            }
                        }
                        AgentChange::Updated(i)
                    },
                    None => {
                        let place = agents.len();
                        let mut queue: VecDeque<AgentAction<P>> = VecDeque::new();
                        queue.push_back(AgentAction::MoveTo { position, node_index });
                        assert(queue@ =~= seq![AgentAction::MoveTo { position, node_index }]);
                        let agent = Agent::new(session_id, queue, spawn);
                        agents.push(agent);
                        proof {
                            let after = views(agents@);
                            assert(after =~= before.push(
                                AgentView::spawned(
                                    session_id@,
                                    seq![AgentAction::MoveTo { position, node_index }],
                                    spawn,
                                ),
                            ));
                            assert forall|a: int, b: int| 0 <= a < b < after.len() implies after[a].session_id
                                != after[b].session_id by {
                                if b < before.len() {
                                    assert(before[a].session_id != before[b].session_id);
                                } else {
                                    assert(before[a].session_id != session_id@);
                                }
                            }
                        }
                        AgentChange::Spawned(place)
                    },
                };
                self.put_agents(agents);
                change
            },
        }
    }

    /// Takes one event of the agent-event source: a session start as
    /// `handle_session_start` does, a tool use as `handle_tool_use` does,
    /// with the target that came with the event.
    pub fn process_event(&mut self, history: &mut FileEventHistory, resolved: ResolvedEvent<P>) -> (change: AgentChange)
        where
            P: Copy,
        ensures
            final(self)@ == after_event(old(self)@, resolved, old(self).spec_spawn_position()),
            final(history)@ == history_after_event(old(history)@, resolved),
            change == change_by_event(old(self)@, resolved),
            final(self).spec_spawn_position() == old(self).spec_spawn_position(),
            distinct_sessions(final(self)@),
            within_limit(final(history)@),
    {
        proof {
            use_type_invariant(&*history);
        }
        let ResolvedEvent { event, target } = resolved;
        match event {
            AgentEvent::SessionStart { session_id, .. } => self.handle_session_start(session_id),
            AgentEvent::ToolUse { session_id, tool_name, file_path, timestamp } => self.handle_tool_use(
                history,
                session_id,
                tool_name,
                file_path,
                timestamp,
                target,
            ),
        }
    }

    /// Takes the events that have come in since the last tick, in their
    /// order, and says what each did to the registry.
    pub fn process_ws_events(&mut self, history: &mut FileEventHistory, events: Vec<ResolvedEvent<P>>) -> (changes: Vec<AgentChange>)
        where
            P: Copy,
        ensures
            final(self)@ == after_events(old(self)@, events@, old(self).spec_spawn_position()),
            final(history)@ == history_after_events(old(history)@, events@),
            changes@ == changes_by_events(old(self)@, events@, old(self).spec_spawn_position()),
            final(self).spec_spawn_position() == old(self).spec_spawn_position(),
            distinct_sessions(final(self)@),
            within_limit(final(history)@),
    {
        let ghost agents_before = self@;
        let ghost history_before = history@;
        let ghost all = events@;
        let ghost spawn = self.spec_spawn_position();
        proof {
            use_type_invariant(&*self);
            use_type_invariant(&*history);
        }
        // the events are taken from the back of a list, so turn it round first
        let mut events = events;
        let mut pending: Vec<ResolvedEvent<P>> = Vec::new();
        while events.len() > 0
            invariant
                pending@.len() + events@.len() == all.len(),
                events@ == all.take(events@.len() as int),
                forall|k: int| 0 <= k < pending@.len() ==> pending@[k] == all[all.len() - 1 - k],
            decreases events@.len(),
        {
            match events.pop() {
                Some(resolved) => {
                    pending.push(resolved);
                    assert(events@ =~= all.take(events@.len() as int));
                },
                None => {},
            }
        }
        let mut changes: Vec<AgentChange> = Vec::new();
        assert(all.take(0) =~= Seq::<ResolvedEvent<P>>::empty());
        while pending.len() > 0
            invariant
                changes@.len() + pending@.len() == all.len(),
                forall|k: int| 0 <= k < pending@.len() ==> pending@[k] == all[all.len() - 1 - k],
                distinct_sessions(self@),
                within_limit(history@),
                self.spec_spawn_position() == spawn,
                self@ == after_events(agents_before, all.take(changes@.len() as int), spawn),
                history@ == history_after_events(history_before, all.take(changes@.len() as int)),
                changes@ == changes_by_events(agents_before, all.take(changes@.len() as int), spawn),
            decreases pending@.len(),
        {
            let ghost done = changes@.len() as int;
            match pending.pop() {
                Some(resolved) => {
                    proof {
                        assert(resolved == all[done]);
                        assert(all.take(done + 1).drop_last() =~= all.take(done));
                        assert(all.take(done + 1).last() == all[done]);
                    }
                    let change = self.process_event(history, resolved);
                    changes.push(change);
                },
                None => {},
            }
        }
        assert(all.take(all.len() as int) =~= all);
        changes
    }

    /// Advances every agent by `dt` microseconds and returns the arrivals
    /// that this completes, in the order of the agents.
    pub fn agent_state_machine(&mut self, dt: u64) -> (arrivals: Vec<AgentArrivedEvent>)
        where
            P: Copy,
        ensures
            final(self)@ == after_tick(old(self)@, dt),
            arrivals@ == arrivals_of(old(self)@, dt),
            final(self).spec_spawn_position() == old(self).spec_spawn_position(),
            distinct_sessions(final(self)@),
    {
        let ghost before = self@;
        let mut agents = self.take_agents();
        let mut arrivals: Vec<AgentArrivedEvent> = Vec::new();
        let total = agents.len();
        let mut i: usize = 0;
        assert(before.take(0).filter_map(|a: AgentView<P>| a.arrival(dt)) =~= Seq::<
            AgentArrivedEvent,
        >::empty());
        while i < total
            invariant
                i <= total,
                total == before.len(),
                agents@.len() == total,
                forall|k: int| 0 <= k < i ==> views(agents@)[k] == before[k].step(dt),
                forall|k: int| i <= k < total ==> views(agents@)[k] == before[k],
                arrivals@ == arrivals_of(before.take(i as int), dt),
            decreases total - i,
        {
            let ghost now = views(agents@);
            let arrived = agents[i].step(dt);
            proof {
                let next = views(agents@);
                assert forall|k: int| 0 <= k < i + 1 implies next[k] == before[k].step(dt) by {
                    if k < i {
                        assert(next[k] == now[k]);
                    }
                }
                assert forall|k: int| i + 1 <= k < total implies next[k] == before[k] by {
                    assert(next[k] == now[k]);
                }
                before.lemma_filter_map_take_succ(|a: AgentView<P>| a.arrival(dt), i as int);
            }
            match arrived {
                Some(event) => {
                    arrivals.push(event);
                },
                None => {},
            }
            i += 1;
        }
        proof {
            let after = views(agents@);
            assert(before.take(total as int) =~= before);
            assert(after =~= after_tick(before, dt));
            assert forall|a: int, b: int| 0 <= a < b < after.len() implies after[a].session_id
                != after[b].session_id by {
                assert(before[a].session_id != before[b].session_id);
                lemma_step_keeps_session(before[a], dt);
                lemma_step_keeps_session(before[b], dt);
            }
        }
        self.put_agents(agents);
        arrivals
    }

    /// Removes every agent that has faded out and returns the sessions of
    /// the removed agents, in the order in which the agents stood. The other
    /// agents keep their order.
    pub fn agent_despawn_system(&mut self) -> (removed: Vec<String>)
        where
            P: Copy,
        ensures
            final(self)@ == survivors(old(self)@),
            removed@.map_values(|s: String| s@) == finished_sessions(old(self)@),
            final(self).spec_spawn_position() == old(self).spec_spawn_position(),
            distinct_sessions(final(self)@),
    {
        let ghost before = self@;
        let mut agents = self.take_agents();
        let ghost alive = |a: AgentView<P>| !a.is_finished();
        let ghost gone = |a: AgentView<P>|
            if a.is_finished() {
                Some(a.session_id)
            } else {
                None
            };
        let mut removed: Vec<String> = Vec::new();
        let mut kept: usize = 0;
        let ghost mut seen: int = 0;
        proof {
            reveal(Seq::filter);
            assert(before.take(0) =~= Seq::<AgentView<P>>::empty());
            assert(views(agents@) =~= before.take(0).filter(alive) + before.skip(0));
            assert(removed@.map_values(|s: String| s@) =~= before.take(0).filter_map(gone));
        }
        while kept < agents.len()
            invariant
                0 <= seen <= before.len(),
                kept <= agents@.len(),
                alive == |a: AgentView<P>| !a.is_finished(),
                gone == |a: AgentView<P>|
                    if a.is_finished() {
                        Some(a.session_id)
                    } else {
                        None
                    },
                kept == before.take(seen).filter(alive).len(),
                views(agents@) == before.take(seen).filter(alive) + before.skip(seen),
                removed@.map_values(|s: String| s@) == before.take(seen).filter_map(gone),
            decreases agents@.len() - kept,
        {
            let ghost now = views(agents@);
            let ghost told = removed@.map_values(|s: String| s@);
            proof {
                reveal(Seq::filter);
                assert(now[kept as int] == before.skip(seen)[0]);
                assert(seen < before.len());
                assert(before.take(seen + 1).drop_last() =~= before.take(seen));
                assert(before.take(seen + 1).last() == before[seen]);
                before.lemma_filter_map_take_succ(gone, seen);
            }
            if agents[kept].is_finished() {
                let agent = agents.remove(kept);
                removed.push(agent.session_id);
                proof {
                    let next = views(agents@);
                    assert(!alive(before[seen]));
                    assert(before.take(seen + 1).filter(alive) == before.take(seen).filter(alive));
                    assert(next =~= now.remove(kept as int));
                    assert forall|k: int| 0 <= k < next.len() implies next[k] == (before.take(
                        seen + 1,
                    ).filter(alive) + before.skip(seen + 1))[k] by {
                        if k >= kept {
                            assert(next[k] == now[k + 1]);
                            assert(now[k + 1] == before.skip(seen)[k + 1 - kept]);
                        } else {
                            assert(next[k] == now[k]);
                        }
                    }
                    assert(next =~= before.take(seen + 1).filter(alive) + before.skip(seen + 1));
                    assert(removed@.map_values(|s: String| s@) =~= told.push(agent.session_id@));
                    seen = seen + 1;
                }
            } else {
                proof {
                    assert(views(agents@) =~= before.take(seen + 1).filter(alive) + before.skip(
                        seen + 1,
                    ));
                    seen = seen + 1;
                }
                kept += 1;
            }
        }
        proof {
            assert(before.skip(seen).len() == 0);
            assert(before.take(seen) =~= before);
            assert(views(agents@) =~= survivors(before));
            lemma_filter_keeps_distinct(before);
        }
        self.put_agents(agents);
        removed
    }
}

/// A step changes neither the session of an agent nor its colour nor where
/// it is shown.
pub proof fn lemma_step_keeps_session<P>(agent: AgentView<P>, dt: u64)
    ensures
        agent.step(dt).session_id == agent.session_id,
        agent.step(dt).color == agent.color,
        agent.step(dt).position == agent.position,
{
}

/// Taking agents out of a registry leaves the others with distinct sessions.
pub proof fn lemma_filter_keeps_distinct<P>(agents: Seq<AgentView<P>>)
    requires
        distinct_sessions(agents),
    ensures
        distinct_sessions(survivors(agents)),
    decreases agents.len(),
{
    reveal(Seq::filter);
    let alive = |a: AgentView<P>| !a.is_finished();
    if agents.len() > 0 {
        let front = agents.drop_last();
        lemma_filter_keeps_distinct(front);
        let kept = front.filter(alive);
        let all = agents.filter(alive);
        if alive(agents.last()) {
            assert(all =~= kept.push(agents.last()));
            assert forall|i: int, j: int| 0 <= i < j < all.len() implies all[i].session_id
                != all[j].session_id by {
                if j < kept.len() {
                    assert(kept[i].session_id != kept[j].session_id);
                } else {
                    front.lemma_filter_contains_rev(alive, kept[i]);
                    let k = choose|k: int| 0 <= k < front.len() && front[k] == kept[i];
                    assert(agents[k].session_id != agents[agents.len() - 1].session_id);
                }
            }
        } else {
            assert(all =~= kept);
        }
    }
}

} // verus!
