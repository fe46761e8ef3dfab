//! Execution boundaries.

use vstd::prelude::*;

use crate::protocol::PreparedToolCall;
use crate::tool::{ToolError, ToolErrorView, ToolOutput};

verus! {

/// Fail-closed default used until the embedding application chooses a real
/// execution boundary.
#[derive(Clone, Copy, Debug, PartialEq, Eq, Structural)]
pub struct RejectingExecutor;

impl RejectingExecutor {
    /// Refuses every execution.
    pub fn execute(&self) -> (outcome: Result<ToolOutput, ToolError>)
        ensures
            outcome matches Err(error) && error@ == ToolErrorView::ExecutorUnavailable(
                "no tool executor is configured"@,
            ),
    {
        Err(ToolError::ExecutorUnavailable("no tool executor is configured".to_owned()))
    }
}

/// Direct in-process execution. This is useful for tests and trusted embedded
/// tools; it is not an OS sandbox.
#[derive(Clone, Copy, Debug, PartialEq, Eq, Structural)]
pub struct DirectExecutor;

impl DirectExecutor {
    /// Has the tool itself execute the prepared call, and hands on what it came to.
    pub fn execute<T: Fn(PreparedToolCall) -> Result<ToolOutput, ToolError>>(
        &self,
        tool: &T,
        prepared: PreparedToolCall,
    ) -> (outcome: Result<ToolOutput, ToolError>)
        requires
            call_requires(*tool, (prepared,)),
        ensures
            call_ensures(*tool, (prepared,), outcome),
    {
        tool(prepared)
    }
}

} // verus!
