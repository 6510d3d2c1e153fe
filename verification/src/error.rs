//! The errors of the library.
use vstd::prelude::*;

verus! {

/// Whether the context of a member can be cleared, and if not, why.
#[derive(Debug, Clone, Copy, PartialEq, Eq, Structural)]
pub enum TeamContextResetAvailability {
    Ready,
    LeaderNotTargetable,
    Unsupported,
    SessionStopped,
    Starting,
    Busy,
    Removing,
    Failed,
}

#[derive(Debug)]
pub enum TeamError {
    TeamNotFound(String),
    AgentNotFound(String),
    TaskNotFound(String),
    /// A new task names a dependency that the board does not hold.
    BlockedTaskNotFound(String),
    /// The id of a new task is in use.
    TaskIdTaken(String),
    SessionNotFound(String),
    InvalidRequest(String),
    DuplicateAgentName(String),
    /// `task_id` cannot wait on `dependency`, which waits on `task_id`.
    CyclicDependency { task_id: String, dependency: String },
    /// `current_task_id` is in progress, and only one task may be.
    SequentialBusy { task_id: String, current_task_id: String },
    /// The runtime of a member is starting, and the request has to wait.
    MemberRuntimeStarting { team_id: String, slot_id: String, conversation_id: String },
    MemberRuntimeFailed {
        team_id: String,
        slot_id: String,
        conversation_id: String,
        public_reason: String,
    },
    MemberBusy { team_id: String, slot_id: String, conversation_id: String },
    MemberUnsupported {
        team_id: String,
        slot_id: String,
        conversation_id: String,
        backend: String,
    },
    RuntimeNotReady { conversation_id: String },
    ContextResetLeaderNotTargetable { team_id: String, slot_id: String, conversation_id: String },
    ContextResetUnavailable {
        team_id: String,
        slot_id: String,
        conversation_id: String,
        availability: TeamContextResetAvailability,
    },
    /// The store failed, with what it says of the failure.
    Database(String),
    Json(serde_json::Error),
}

} // verus!
