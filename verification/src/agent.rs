//! The lifecycle of one agent: it spawns, idles, moves to the files that its
//! session touches, and despawns when nothing is left to do.
//!
//! Time is counted in microseconds. A position is whatever the presentation
//! layer uses for one; the engine only carries it along. Each agent holds the
//! position at which the presentation layer shows it, which that layer keeps
//! up to date; a move starts from there.

use vstd::prelude::*;
use std::collections::VecDeque;
use crate::color::{color_of_hash, generate_agent_color, session_hash, AgentColor};

verus! {

/// How long an agent takes to appear.
pub const SPAWN_DURATION: u64 = 500_000;

/// How long an agent takes to disappear.
pub const DESPAWN_DURATION: u64 = 500_000;

/// How long an agent may idle, with nothing queued, before it starts to
/// despawn.
pub const IDLE_TIMEOUT: u64 = 5_000_000;

/// How long one move takes, whatever the distance.
pub const MOVE_DURATION: u64 = 1_200_000;

/// Something an agent is asked to do.
#[derive(Debug)]
pub enum AgentAction<P> {
    MoveTo { position: P, node_index: usize },
}

/// Where an agent stands in its lifecycle.
#[derive(Debug)]
pub enum AgentState<P> {
    Spawning { timer: u64 },
    Idle { timer: u64 },
    /// On the way from `from` to `to`; `progress` is the time spent on the
    /// move so far, and the move is complete at `MOVE_DURATION`.
    Moving { from: P, to: P, progress: u64, target_node: usize },
    /// Fading out; at `DESPAWN_DURATION` the agent is due for removal.
    Despawning { timer: u64 },
}

/// The notice that an agent has arrived at a node.
#[derive(Debug, Clone, Copy, PartialEq, Eq, Structural)]
pub struct AgentArrivedEvent {
    pub node_index: usize,
}

/// One visiting agent: the state of one work session.
#[derive(Debug)]
pub struct Agent<P> {
    pub session_id: String,
    pub event_queue: VecDeque<AgentAction<P>>,
    pub state: AgentState<P>,
    pub current_target_file: Option<usize>,
    pub current_action: Option<String>,
    pub color: AgentColor,
    /// Where the presentation layer shows the agent at present.
    pub position: P,
}

/// What an `Agent` holds, as mathematical values.
pub struct AgentView<P> {
    pub session_id: Seq<char>,
    pub event_queue: Seq<AgentAction<P>>,
    pub state: AgentState<P>,
    pub current_target_file: Option<usize>,
    pub current_action: Option<Seq<char>>,
    pub color: AgentColor,
    pub position: P,
}

impl<P> View for Agent<P> {
    type V = AgentView<P>;

    open spec fn view(&self) -> AgentView<P> {
        AgentView {
            session_id: self.session_id@,
            event_queue: self.event_queue@,
            state: self.state,
            current_target_file: self.current_target_file,
            current_action: match self.current_action {
                Some(text) => Some(text@),
                None => None,
            },
            color: self.color,
            position: self.position,
        }
    }
}

impl<P> AgentView<P> {
    /// The agent after `dt` microseconds have passed.
    ///
    /// - Spawning ends in Idle once the spawn duration has passed.
    /// - Idle takes the next queued action, if there is one, and starts to
    ///   move from the agent's position; else it waits, and starts to despawn
    ///   once the wait exceeds the idle timeout.
    /// - Moving ends in Idle, at the target, once the move duration has
    ///   passed.
    /// - Despawning runs up to the despawn duration and stays there.
    pub open spec fn step(self, dt: u64) -> AgentView<P> {
        match self.state {
            AgentState::Spawning { timer } => AgentView {
                state: if timer + dt >= SPAWN_DURATION {
                    AgentState::Idle { timer: 0 }
                } else {
                    AgentState::Spawning { timer: (timer + dt) as u64 }
                },
                ..self
            },
            AgentState::Idle { timer } => if self.event_queue.len() > 0 {
                match self.event_queue[0] {
                    AgentAction::MoveTo { position: to, node_index } => AgentView {
                        event_queue: self.event_queue.drop_first(),
                        state: AgentState::Moving {
                            from: self.position,
                            to,
                            progress: 0,
                            target_node: node_index,
                        },
                        current_target_file: Some(node_index),
                        ..self
                    },
                }
            } else if timer + dt > IDLE_TIMEOUT {
                AgentView {
                    state: AgentState::Despawning { timer: 0 },
                    current_action: None,
                    ..self
                }
            } else {
                AgentView { state: AgentState::Idle { timer: (timer + dt) as u64 }, ..self }
            },
            AgentState::Moving { from, to, progress, target_node } => if progress + dt
                >= MOVE_DURATION {
                AgentView {
                    state: AgentState::Idle { timer: 0 },
                    current_target_file: Some(target_node),
                    ..self
                }
            } else {
                AgentView {
                    state: AgentState::Moving {
                        from,
                        to,
                        progress: (progress + dt) as u64,
                        target_node,
                    },
                    ..self
                }
            },
            AgentState::Despawning { timer } => AgentView {
                state: if timer + dt >= DESPAWN_DURATION {
                    AgentState::Despawning { timer: DESPAWN_DURATION }
                } else {
                    AgentState::Despawning { timer: (timer + dt) as u64 }
                },
                ..self
            },
        }
    }

    /// The arrival that a step of `dt` microseconds announces: the target of
    /// a move that the step completes, and nothing else.
    pub open spec fn arrival(self, dt: u64) -> Option<AgentArrivedEvent> {
        match self.state {
            AgentState::Moving { progress, target_node, .. } => if progress + dt >= MOVE_DURATION {
                Some(AgentArrivedEvent { node_index: target_node })
            } else {
                None
            },
            _ => None,
        }
    }

    /// The agent is fading out.
    pub open spec fn is_despawning(self) -> bool {
        self.state is Despawning
    }

    /// The agent has faded out and is due for removal.
    pub open spec fn is_finished(self) -> bool {
        match self.state {
            AgentState::Despawning { timer } => timer >= DESPAWN_DURATION,
            _ => false,
        }
    }

    /// The agent with a despawn in progress called off: a despawning agent is
    /// idle again, any other is as it was.
    pub open spec fn revived(self) -> AgentView<P> {
        if self.is_despawning() {
            AgentView { state: AgentState::Idle { timer: 0 }, ..self }
        } else {
            self
        }
    }

    /// The agent after new work for it has arrived: a despawn is called off,
    /// the move goes to the end of the queue, and the label says what the
    /// agent is doing.
    pub open spec fn with_work(self, position: P, node_index: usize, label: Seq<char>) -> AgentView<P> {
        AgentView {
            event_queue: self.revived().event_queue.push(AgentAction::MoveTo { position, node_index }),
            current_action: Some(label),
            ..self.revived()
        }
    }

    /// A new agent for a session: spawning at `position`, with the given
    /// queue, no target, no label, and the colour of its session.
    pub open spec fn spawned(session_id: Seq<char>, event_queue: Seq<AgentAction<P>>, position: P) -> AgentView<P> {
        AgentView {
            session_id,
            event_queue,
            state: AgentState::Spawning { timer: 0 },
            current_target_file: None,
            current_action: None,
            color: color_of_hash(session_hash(session_id)),
            position,
        }
    }
}

impl<P> AgentState<P> {
    /// Where the move began, for an agent that is moving.
    pub fn moving_from(&self) -> (from: Option<P>)
        where
            P: Copy,
        ensures
            from == match *self {
                AgentState::Moving { from, .. } => Some(from),
                _ => None,
            },
    {
        match self {
            AgentState::Moving { from, .. } => Some(*from),
            _ => None,
        }
    }

    /// Where the move leads, for an agent that is moving.
    pub fn moving_to(&self) -> (to: Option<P>)
        where
            P: Copy,
        ensures
            to == match *self {
                AgentState::Moving { to, .. } => Some(to),
                _ => None,
            },
    {
        match self {
            AgentState::Moving { to, .. } => Some(*to),
            _ => None,
        }
    }
}

impl<P> Agent<P> {
    /// A new agent for the session `session_id`, shown at `position`, with
    /// `event_queue` as its first work.
    pub fn new(session_id: String, event_queue: VecDeque<AgentAction<P>>, position: P) -> (agent: Self)
        ensures
            agent@ == AgentView::spawned(session_id@, event_queue@, position),
    {
        let color = generate_agent_color(session_id.as_str());
        Agent {
            session_id,
            event_queue,
            state: AgentState::Spawning { timer: 0 },
            current_target_file: None,
            current_action: None,
            color,
            position,
        }
    }

    /// Whether the agent is fading out.
    pub fn is_despawning(&self) -> (r: bool)
        ensures
            r == self@.is_despawning(),
    {
        match self.state {
            AgentState::Despawning { .. } => true,
            _ => false,
        }
    }

    /// Whether the agent has faded out and is due for removal.
    pub fn is_finished(&self) -> (r: bool)
        ensures
            r == self@.is_finished(),
    {
        match self.state {
            AgentState::Despawning { timer } => timer >= DESPAWN_DURATION,
            _ => false,
        }
    }

    /// Calls off a despawn in progress; says whether there was one.
    pub fn cancel_despawn(&mut self) -> (cancelled: bool)
        ensures
            final(self)@ == old(self)@.revived(),
            cancelled == old(self)@.is_despawning(),
    {
        if self.is_despawning() {
            self.state = AgentState::Idle { timer: 0 };
            true
        } else {
            false
        }
    }

    /// Hands the agent a move to the node `node_index` at `position`, with
    /// `label` as the description of the work. A despawn in progress is
    /// called off.
    pub fn enqueue_move(&mut self, position: P, node_index: usize, label: String)
        ensures
            final(self)@ == old(self)@.with_work(position, node_index, label@),
    {
        self.cancel_despawn();
        self.event_queue.push_back(AgentAction::MoveTo { position, node_index });
        self.current_action = Some(label);
    }

    /// Advances the agent by `dt` microseconds. Returns the arrival, if the
    /// step completes a move.
    pub fn step(&mut self, dt: u64) -> (arrived: Option<AgentArrivedEvent>)
        where
            P: Copy,
        ensures
            final(self)@ == old(self)@.step(dt),
            arrived == old(self)@.arrival(dt),
    {
        let mut state = AgentState::Idle { timer: 0 };
        core::mem::swap(&mut self.state, &mut state);
        match state {
            AgentState::Spawning { timer } => {
                if timer >= SPAWN_DURATION || dt >= SPAWN_DURATION - timer {
                    self.state = AgentState::Idle { timer: 0 };
                } else {
                    self.state = AgentState::Spawning { timer: timer + dt };
                }
                None
            },
            AgentState::Idle { timer } => {
                match self.event_queue.pop_front() {
                    Some(AgentAction::MoveTo { position: to, node_index }) => {
                        self.current_target_file = Some(node_index);
                        self.state = AgentState::Moving {
                            from: self.position,
                            to,
                            progress: 0,
                            target_node: node_index,
                        };
                        assert(self.event_queue@ =~= old(self).event_queue@.drop_first());
                    },
                    None => {
                        if timer > IDLE_TIMEOUT || dt > IDLE_TIMEOUT - timer {
                            self.state = AgentState::Despawning { timer: 0 };
                            self.current_action = None;
                        } else {
                            self.state = AgentState::Idle { timer: timer + dt };
                        }
                    },
                }
                None
            },
            AgentState::Moving { from, to, progress, target_node } => {
                if progress >= MOVE_DURATION || dt >= MOVE_DURATION - progress {
                    self.current_target_file = Some(target_node);
                    self.state = AgentState::Idle { timer: 0 };
                    Some(AgentArrivedEvent { node_index: target_node })
                } else {
                    self.state = AgentState::Moving { from, to, progress: progress + dt, target_node };
                    None
                }
            },
            AgentState::Despawning { timer } => {
                if timer >= DESPAWN_DURATION || dt >= DESPAWN_DURATION - timer {
                    self.state = AgentState::Despawning { timer: DESPAWN_DURATION };
                } else {
                    self.state = AgentState::Despawning { timer: timer + dt };
                }
                None
            },
        }
    }
}

} // verus!
