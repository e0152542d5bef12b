//! What holds of the lifecycle engine over whole runs of steps and events.

use vstd::prelude::*;
use crate::agent::{AgentAction, AgentArrivedEvent, AgentState, AgentView, MOVE_DURATION};
use crate::history::{with_entry, FileEventView, HISTORY_LIMIT};
use crate::registry::{after_session_start, after_tool_use, distinct_sessions, holds_session, place_of};

verus! {

/// The time that a run of steps takes.
pub open spec fn total_time(steps: Seq<u64>) -> int
    decreases steps.len(),
{
    if steps.len() == 0 {
        0
    } else {
        total_time(steps.drop_last()) + steps.last()
    }
}

impl<P> AgentView<P> {
    /// The agent after a run of steps, taken in their order.
    pub open spec fn run(self, steps: Seq<u64>) -> AgentView<P>
        decreases steps.len(),
    {
        if steps.len() == 0 {
            self
        } else {
            self.run(steps.drop_last()).step(steps.last())
        }
    }

    /// The arrivals that a run of steps announces, in their order.
    pub open spec fn arrivals_during(self, steps: Seq<u64>) -> Seq<AgentArrivedEvent>
        decreases steps.len(),
    {
        if steps.len() == 0 {
            Seq::empty()
        } else {
            let earlier = self.arrivals_during(steps.drop_last());
            match self.run(steps.drop_last()).arrival(steps.last()) {
                Some(event) => earlier.push(event),
                None => earlier,
            }
        }
    }
}

/// An idle agent with a queued move takes it in its next step: it is then
/// moving from where it is shown to the target of the move, with no progress
/// yet, and the step announces no arrival.
pub proof fn lemma_idle_agent_starts_queued_move<P>(agent: AgentView<P>, dt: u64)
    requires
        agent.state is Idle,
        agent.event_queue.len() > 0,
    ensures
        agent.step(dt).state == (AgentState::Moving {
            from: agent.position,
            to: agent.event_queue[0]->position,
            progress: 0,
            target_node: agent.event_queue[0]->node_index,
        }),
        agent.step(dt).event_queue == agent.event_queue.drop_first(),
        agent.arrival(dt) is None,
{
}

/// While the steps of a moving agent add up to less than what is left of the
/// move, the agent keeps moving, its progress is what it was plus the time
/// that has passed, and no arrival is announced.
pub proof fn lemma_move_progresses<P>(agent: AgentView<P>, steps: Seq<u64>)
    requires
        agent.state is Moving,
        agent.state->progress + total_time(steps) < MOVE_DURATION,
    ensures
        agent.run(steps).state == (AgentState::Moving {
            from: agent.state->from,
            to: agent.state->to,
            progress: (agent.state->progress + total_time(steps)) as u64,
            target_node: agent.state->target_node,
        }),
        agent.run(steps).event_queue == agent.event_queue,
        agent.run(steps).current_target_file == agent.current_target_file,
        agent.arrivals_during(steps) == Seq::<AgentArrivedEvent>::empty(),
    decreases steps.len(),
{
    if steps.len() > 0 {
        lemma_total_time_is_not_negative(steps.drop_last());
        lemma_move_progresses(agent, steps.drop_last());
    }
}

/// A run of steps takes no negative time.
pub proof fn lemma_total_time_is_not_negative(steps: Seq<u64>)
    ensures
        total_time(steps) >= 0,
    decreases steps.len(),
{
    if steps.len() > 0 {
        lemma_total_time_is_not_negative(steps.drop_last());
    }
}

/// An idle agent with exactly one queued move, advanced by a first step and
/// then by any run of steps of which the last is the first to fill the move
/// duration: the agent ends idle with its timer at 0, at the target of the
/// move, and the whole run has announced exactly one arrival, at that
/// target.
pub proof fn lemma_one_move_gives_one_arrival<P>(agent: AgentView<P>, first: u64, steps: Seq<u64>)
    requires
        agent.state is Idle,
        agent.event_queue.len() == 1,
        steps.len() > 0,
        total_time(steps.drop_last()) < MOVE_DURATION <= total_time(steps),
    ensures
        agent.step(first).run(steps).state == (AgentState::<P>::Idle { timer: 0 }),
        agent.step(first).run(steps).current_target_file == Some(
            agent.event_queue[0]->node_index,
        ),
        agent.step(first).run(steps).event_queue.len() == 0,
        agent.arrival(first) is None,
        agent.step(first).arrivals_during(steps) == seq![
            AgentArrivedEvent { node_index: agent.event_queue[0]->node_index },
        ],
{
    lemma_idle_agent_starts_queued_move(agent, first);
    let moving = agent.step(first);
    lemma_move_progresses(moving, steps.drop_last());
    assert(moving.arrivals_during(steps) =~= seq![
        AgentArrivedEvent { node_index: agent.event_queue[0]->node_index },
    ]);
}

impl<P> AgentView<P> {
    /// An agent that is despawning has nothing queued and no label.
    pub open spec fn rests_when_despawning(self) -> bool {
        self.is_despawning() ==> self.event_queue.len() == 0 && self.current_action is None
    }
}

/// A despawning agent has nothing left to do: this holds of a new agent and
/// is kept by every step, by new work and by calling a despawn off. So an
/// agent is removed only with an empty queue.
pub proof fn lemma_despawning_agent_has_nothing_queued<P>(
    agent: AgentView<P>,
    dt: u64,
    position: P,
    node_index: usize,
    label: Seq<char>,
)
    requires
        agent.rests_when_despawning(),
    ensures
        agent.step(dt).rests_when_despawning(),
        agent.with_work(position, node_index, label).rests_when_despawning(),
        agent.revived().rests_when_despawning(),
        AgentView::<P>::spawned(agent.session_id, agent.event_queue, position).rests_when_despawning(),
{
}

/// A tool use for a session whose agent is despawning leaves the registry
/// with the same agents for the same sessions, and that agent idle with its
/// timer at 0 and the move at the end of its queue.
pub proof fn lemma_tool_use_revives_despawning_agent<P>(
    agents: Seq<AgentView<P>>,
    session: Seq<char>,
    position: P,
    node_index: usize,
    label: Seq<char>,
    spawn: P,
)
    requires
        distinct_sessions(agents),
        holds_session(agents, session),
        agents[place_of(agents, session)].is_despawning(),
    ensures
        ({
            let after = after_tool_use(agents, session, position, node_index, label, spawn);
            let place = place_of(agents, session);
            &&& after.len() == agents.len()
            &&& forall|i: int| 0 <= i < agents.len() ==> (#[trigger] after[i]).session_id == agents[i].session_id
            &&& forall|i: int| 0 <= i < agents.len() && i != place ==> #[trigger] after[i] == agents[i]
            &&& distinct_sessions(after)
            &&& after[place].state == (AgentState::<P>::Idle { timer: 0 })
            &&& after[place].color == agents[place].color
            &&& after[place].event_queue == agents[place].event_queue.push(
                AgentAction::MoveTo { position, node_index },
            )
        }),
{
    let after = after_tool_use(agents, session, position, node_index, label, spawn);
    assert forall|i: int, j: int| 0 <= i < j < after.len() implies after[i].session_id
        != after[j].session_id by {
        assert(agents[i].session_id != agents[j].session_id);
    }
}

/// A session start for a session whose agent is despawning revives that
/// agent and creates no other.
pub proof fn lemma_session_start_revives_despawning_agent<P>(
    agents: Seq<AgentView<P>>,
    session: Seq<char>,
    spawn: P,
)
    requires
        distinct_sessions(agents),
        holds_session(agents, session),
        agents[place_of(agents, session)].is_despawning(),
    ensures
        after_session_start(agents, session, spawn).len() == agents.len(),
        after_session_start(agents, session, spawn)[place_of(agents, session)].state == (AgentState::<
            P,
        >::Idle { timer: 0 }),
        after_session_start(agents, session, spawn)[place_of(agents, session)].session_id
            == session,
{
}

/// A history within the limit stays within the limit when an entry is
/// added, and the new entry is its last. Where the history was full, the
/// oldest entry has gone and the second oldest is now the first.
pub proof fn lemma_history_stays_within_limit(events: Seq<FileEventView>, entry: FileEventView)
    requires
        events.len() <= HISTORY_LIMIT,
    ensures
        with_entry(events, entry).len() <= HISTORY_LIMIT,
        with_entry(events, entry).last() == entry,
        events.len() < HISTORY_LIMIT ==> with_entry(events, entry) == events.push(entry),
        events.len() == HISTORY_LIMIT ==> {
            &&& with_entry(events, entry).len() == HISTORY_LIMIT
            &&& with_entry(events, entry)[0] == events[1]
            &&& with_entry(events, entry) =~= events.subrange(1, events.len() as int).push(entry)
        },
{
}

} // verus!
