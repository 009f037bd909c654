//! Execution status vocabulary and its wire counterpart.

use vstd::prelude::*;

verus! {

/// Outcome tag of one agent invocation.
#[derive(Debug, Clone, Copy, PartialEq, Eq, Hash, Structural)]
pub enum ExecutionStatus {
    Pending,
    Succeeded,
    Failed,
    Exception,
    Stopped,
    Paused,
}

/// Status tag as it travels in a result frame.
#[derive(Debug, Clone, Copy, PartialEq, Eq, Hash, Structural)]
pub enum NodeExecutionStatus {
    Pending,
    Succeeded,
    Failed,
    Exception,
    Stopped,
    Paused,
}

/// The wire tag that carries the same meaning as `status`.
pub open spec fn wire_status(status: ExecutionStatus) -> NodeExecutionStatus {
    match status {
        ExecutionStatus::Pending => NodeExecutionStatus::Pending,
        ExecutionStatus::Succeeded => NodeExecutionStatus::Succeeded,
        ExecutionStatus::Failed => NodeExecutionStatus::Failed,
        ExecutionStatus::Exception => NodeExecutionStatus::Exception,
        ExecutionStatus::Stopped => NodeExecutionStatus::Stopped,
        ExecutionStatus::Paused => NodeExecutionStatus::Paused,
    }
}

impl From<ExecutionStatus> for NodeExecutionStatus {
    /// Converts a status into its wire tag, variant for variant.
    fn from(status: ExecutionStatus) -> (out: NodeExecutionStatus) {
        match status {
            ExecutionStatus::Pending => NodeExecutionStatus::Pending,
            ExecutionStatus::Succeeded => NodeExecutionStatus::Succeeded,
            ExecutionStatus::Failed => NodeExecutionStatus::Failed,
            ExecutionStatus::Exception => NodeExecutionStatus::Exception,
            ExecutionStatus::Stopped => NodeExecutionStatus::Stopped,
            ExecutionStatus::Paused => NodeExecutionStatus::Paused,
        }
    }
}

impl vstd::std_specs::convert::FromSpecImpl<ExecutionStatus> for NodeExecutionStatus {
    open spec fn obeys_from_spec() -> bool {
        true
    }

    open spec fn from_spec(status: ExecutionStatus) -> NodeExecutionStatus {
        wire_status(status)
    }
}

} // verus!
