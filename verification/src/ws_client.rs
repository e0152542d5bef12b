//! The events that the agent-event source delivers, already parsed.

use vstd::prelude::*;

verus! {

/// One event about a work session.
#[derive(Debug)]
pub enum AgentEvent {
    /// A session has begun.
    SessionStart { session_id: String, cwd: String, model: String },
    /// A session has used a tool on a file.
    ToolUse { session_id: String, tool_name: String, file_path: String, timestamp: Option<String> },
}

impl AgentEvent {
    /// The session that the event belongs to.
    pub open spec fn spec_session_id(&self) -> Seq<char> {
        match self {
            AgentEvent::SessionStart { session_id, .. } => session_id@,
            AgentEvent::ToolUse { session_id, .. } => session_id@,
        }
    }

    /// The session that the event belongs to.
    pub fn session_id(&self) -> (id: &String)
        ensures
            id@ == self.spec_session_id(),
    {
        match self {
            AgentEvent::SessionStart { session_id, .. } => session_id,
            AgentEvent::ToolUse { session_id, .. } => session_id,
        }
    }
}

} // verus!
