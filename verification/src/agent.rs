//! The record type for one agent session.

use vstd::prelude::*;

verus! {

/// One recorded agent run, as read out of the `agent` table.
///
/// `started_at` and `stopped_at` carry the database-native timestamp text
/// (`YYYY-MM-DD HH:MM:SS`); `stopped_at` is `None` while the agent is still
/// running or its stop was never recorded.
pub struct AgentSession {
    pub agent_id: String,
    pub agent_type: String,
    pub session_id: String,
    pub cwd: String,
    pub started_at: String,
    pub stopped_at: Option<String>,
}

} // verus!
