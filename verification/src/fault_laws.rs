//! What the texts of errors tell: whoever reads one learns what failed and what it was about.
use vstd::prelude::*;

use crate::app_server::{ServerError, ServerErrorView};
use crate::context::{context_error_text, ContextError, ContextErrorView};
use crate::context_fs::{FsContextError, FsContextErrorView};
use crate::ledger::{status_name, LedgerError, LedgerErrorView};
use crate::memory::{MemoryError, MemoryErrorView};
use crate::process::{ProcessError, ProcessErrorView};
use crate::provider::{TransportError, TransportErrorView};
use crate::store::{store_error_text, StoreError, StoreErrorView};
use crate::task::{TaskError, TaskErrorView};
use crate::text::{begins, decimal_of, occurs, stands_at};
use crate::tool::{RegistryError, RegistryErrorView, ToolError, ToolErrorView};
use crate::turn::{RuntimeError, RuntimeErrorView};

verus! {

/// Whether a text begins with these words and has this behind them.
pub open spec fn says(text: Seq<char>, words: Seq<char>, detail: Seq<char>) -> bool {
    begins(text, words) && occurs(text, detail)
}

proof fn lemma_says(
    text: Seq<char>,
    words: Seq<char>,
    before: Seq<char>,
    detail: Seq<char>,
    behind: Seq<char>,
)
    requires
        text =~= words + before + detail + behind,
    ensures
        says(text, words, detail),
{
    let at = (words + before).len() as int;
    assert(text.subrange(0, words.len() as int) =~= words);
    assert(text.subrange(at, at + detail.len()) =~= detail);
    assert(stands_at(text, detail, at));
}

/// An error of the event store tells its kind and its detail.
pub proof fn law_store_errors_tell_what_failed(error: StoreError, text: String)
    requires
        call_ensures(StoreError::to_text, (&error,), text),
    ensures
        match error@ {
            StoreErrorView::Io(detail) => says(text@, "event store I/O error: "@, detail),
            StoreErrorView::Serialization(detail) => says(
                text@,
                "event serialization error: "@,
                detail,
            ),
            StoreErrorView::Corrupt { line, message } => {
                &&& says(text@, "corrupt event at line "@, decimal_of(line as nat))
                &&& says(text@, "corrupt event at line "@, message)
            },
            StoreErrorView::Poisoned => begins(text@, "event store lock was poisoned"@),
        },
{
    match error@ {
        StoreErrorView::Io(detail) => {
            lemma_says(text@, "event store I/O error: "@, Seq::empty(), detail, Seq::empty());
        },
        StoreErrorView::Serialization(detail) => {
            lemma_says(text@, "event serialization error: "@, Seq::empty(), detail, Seq::empty());
        },
        StoreErrorView::Corrupt { line, message } => {
            lemma_says(
                text@,
                "corrupt event at line "@,
                Seq::empty(),
                decimal_of(line as nat),
                ": "@ + message,
            );
            lemma_says(
                text@,
                "corrupt event at line "@,
                decimal_of(line as nat) + ": "@,
                message,
                Seq::empty(),
            );
        },
        StoreErrorView::Poisoned => {
            assert(text@.subrange(0, text@.len() as int) =~= text@);
        },
    }
}

/// An error of a context tells its kind and its detail, or both sizes.
pub proof fn law_context_errors_tell_what_failed(error: ContextError, text: String)
    requires
        call_ensures(ContextError::to_text, (&error,), text),
    ensures
        match error@ {
            ContextErrorView::TooLarge { actual, maximum } => {
                &&& says(
                    text@,
                    "context exceeds the configured character budget ("@,
                    decimal_of(actual as nat),
                )
                &&& says(
                    text@,
                    "context exceeds the configured character budget ("@,
                    decimal_of(maximum as nat),
                )
            },
            ContextErrorView::Path(detail) => says(text@, "context path error: "@, detail),
            ContextErrorView::Read(detail) => says(
                text@,
                "failed to read context source: "@,
                detail,
            ),
        },
{
    match error@ {
        ContextErrorView::TooLarge { actual, maximum } => {
            lemma_says(
                text@,
                "context exceeds the configured character budget ("@,
                Seq::empty(),
                decimal_of(actual as nat),
                " > "@ + decimal_of(maximum as nat) + ")"@,
            );
            lemma_says(
                text@,
                "context exceeds the configured character budget ("@,
                decimal_of(actual as nat) + " > "@,
                decimal_of(maximum as nat),
                ")"@,
            );
        },
        ContextErrorView::Path(detail) => {
            lemma_says(text@, "context path error: "@, Seq::empty(), detail, Seq::empty());
        },
        ContextErrorView::Read(detail) => {
            lemma_says(
                text@,
                "failed to read context source: "@,
                Seq::empty(),
                detail,
                Seq::empty(),
            );
        },
    }
}

/// An error of the context files tells its detail or the skill that was not found.
pub proof fn law_filesystem_errors_tell_what_failed(error: FsContextError, text: String)
    requires
        call_ensures(FsContextError::to_text, (&error,), text),
    ensures
        match error@ {
            FsContextErrorView::Io(detail) => says(
                text@,
                "filesystem context I/O error: "@,
                detail,
            ),
            FsContextErrorView::UnknownSkill(name) => says(text@, "selected skill `"@, name),
        },
{
    match error@ {
        FsContextErrorView::Io(detail) => {
            lemma_says(
                text@,
                "filesystem context I/O error: "@,
                Seq::empty(),
                detail,
                Seq::empty(),
            );
        },
        FsContextErrorView::UnknownSkill(name) => {
            lemma_says(text@, "selected skill `"@, Seq::empty(), name, "` was not found"@);
        },
    }
}

/// An error of a tool tells its kind and its detail.
pub proof fn law_tool_errors_tell_what_failed(error: ToolError, text: String)
    requires
        call_ensures(ToolError::to_text, (&error,), text),
    ensures
        match error@ {
            ToolErrorView::InvalidArguments(detail) => says(
                text@,
                "invalid tool arguments: "@,
                detail,
            ),
            ToolErrorView::Execution(detail) => says(text@, "tool execution failed: "@, detail),
            ToolErrorView::ExecutorUnavailable(detail) => says(
                text@,
                "tool executor is unavailable: "@,
                detail,
            ),
            ToolErrorView::OutcomeUnknown(detail) => says(
                text@,
                "tool outcome is unknown: "@,
                detail,
            ),
            ToolErrorView::Cancelled => begins(text@, "tool execution was cancelled"@),
        },
{
    match error@ {
        ToolErrorView::InvalidArguments(detail) => {
            lemma_says(text@, "invalid tool arguments: "@, Seq::empty(), detail, Seq::empty());
        },
        ToolErrorView::Execution(detail) => {
            lemma_says(text@, "tool execution failed: "@, Seq::empty(), detail, Seq::empty());
        },
        ToolErrorView::ExecutorUnavailable(detail) => {
            lemma_says(
                text@,
                "tool executor is unavailable: "@,
                Seq::empty(),
                detail,
                Seq::empty(),
            );
        },
        ToolErrorView::OutcomeUnknown(detail) => {
            lemma_says(text@, "tool outcome is unknown: "@, Seq::empty(), detail, Seq::empty());
        },
        ToolErrorView::Cancelled => {
            assert(text@.subrange(0, text@.len() as int) =~= text@);
        },
    }
}

/// An error of the registry tells the name that is taken.
pub proof fn law_registry_errors_tell_what_failed(error: RegistryError, text: String)
    requires
        call_ensures(RegistryError::to_text, (&error,), text),
    ensures
        match error@ {
            RegistryErrorView::EmptyName => begins(text@, "tool name cannot be empty"@),
            RegistryErrorView::Duplicate(name) => says(text@, "tool `"@, name),
        },
{
    match error@ {
        RegistryErrorView::EmptyName => {
            assert(text@.subrange(0, text@.len() as int) =~= text@);
        },
        RegistryErrorView::Duplicate(name) => {
            lemma_says(text@, "tool `"@, Seq::empty(), name, "` is already registered"@);
        },
    }
}

/// An error of a process tells its kind and its detail.
pub proof fn law_process_errors_tell_what_failed(error: ProcessError, text: String)
    requires
        call_ensures(ProcessError::to_text, (&error,), text),
    ensures
        match error@ {
            ProcessErrorView::Cancelled => begins(text@, "process cancelled"@),
            ProcessErrorView::Io(detail) => says(text@, "process I/O error: "@, detail),
            ProcessErrorView::Invalid(detail) => says(text@, "invalid process request: "@, detail),
        },
{
    match error@ {
        ProcessErrorView::Cancelled => {
            reveal_strlit("process cancelled");
            reveal_strlit("process cancelled; effects before termination may have occurred");
            assert(text@.subrange(0, 17) =~= "process cancelled"@);
        },
        ProcessErrorView::Io(detail) => {
            lemma_says(text@, "process I/O error: "@, Seq::empty(), detail, Seq::empty());
        },
        ProcessErrorView::Invalid(detail) => {
            lemma_says(text@, "invalid process request: "@, Seq::empty(), detail, Seq::empty());
        },
    }
}

/// An error of the transport tells its kind and its detail, or the status and the body that
/// came.
pub proof fn law_transport_errors_tell_what_failed(error: TransportError, text: String)
    requires
        call_ensures(TransportError::to_text, (&error,), text),
    ensures
        match error@ {
            TransportErrorView::Io(detail) => says(text@, "HTTP transport I/O error: "@, detail),
            TransportErrorView::Protocol(detail) => says(
                text@,
                "HTTP transport protocol error: "@,
                detail,
            ),
            TransportErrorView::Http { status, body } => {
                &&& says(text@, "HTTP endpoint returned status "@, decimal_of(status as nat))
                &&& says(text@, "HTTP endpoint returned status "@, body)
            },
        },
{
    match error@ {
        TransportErrorView::Io(detail) => {
            lemma_says(text@, "HTTP transport I/O error: "@, Seq::empty(), detail, Seq::empty());
        },
        TransportErrorView::Protocol(detail) => {
            lemma_says(
                text@,
                "HTTP transport protocol error: "@,
                Seq::empty(),
                detail,
                Seq::empty(),
            );
        },
        TransportErrorView::Http { status, body } => {
            lemma_says(
                text@,
                "HTTP endpoint returned status "@,
                Seq::empty(),
                decimal_of(status as nat),
                ": "@ + body,
            );
            lemma_says(
                text@,
                "HTTP endpoint returned status "@,
                decimal_of(status as nat) + ": "@,
                body,
                Seq::empty(),
            );
        },
    }
}

/// An error of the memories tells its kind and its detail.
pub proof fn law_memory_errors_tell_what_failed(error: MemoryError, text: String)
    requires
        call_ensures(MemoryError::to_text, (&error,), text),
    ensures
        match error@ {
            MemoryErrorView::Io(detail) => says(text@, "memory I/O error: "@, detail),
            MemoryErrorView::Serialization(detail) => says(
                text@,
                "memory serialization error: "@,
                detail,
            ),
            MemoryErrorView::Corrupt { line, message } => {
                &&& says(text@, "corrupt memory event at line "@, decimal_of(line as nat))
                &&& says(text@, "corrupt memory event at line "@, message)
            },
            MemoryErrorView::Poisoned => begins(text@, "memory store lock was poisoned"@),
        },
{
    match error@ {
        MemoryErrorView::Io(detail) => {
            lemma_says(text@, "memory I/O error: "@, Seq::empty(), detail, Seq::empty());
        },
        MemoryErrorView::Serialization(detail) => {
            lemma_says(text@, "memory serialization error: "@, Seq::empty(), detail, Seq::empty());
        },
        MemoryErrorView::Corrupt { line, message } => {
            lemma_says(
                text@,
                "corrupt memory event at line "@,
                Seq::empty(),
                decimal_of(line as nat),
                ": "@ + message,
            );
            lemma_says(
                text@,
                "corrupt memory event at line "@,
                decimal_of(line as nat) + ": "@,
                message,
                Seq::empty(),
            );
        },
        MemoryErrorView::Poisoned => {
            assert(text@.subrange(0, text@.len() as int) =~= text@);
        },
    }
}

/// An error of the ledger tells its kind and its detail, or the task that it is about.
pub proof fn law_ledger_errors_tell_what_failed(error: LedgerError, text: String)
    requires
        call_ensures(LedgerError::to_text, (&error,), text),
    ensures
        match error@ {
            LedgerErrorView::Io(detail) => says(text@, "task ledger I/O error: "@, detail),
            LedgerErrorView::Serialization(detail) => says(
                text@,
                "task ledger serialization error: "@,
                detail,
            ),
            LedgerErrorView::Corrupt { line, message } => {
                &&& says(text@, "corrupt task ledger at line "@, decimal_of(line as nat))
                &&& says(text@, "corrupt task ledger at line "@, message)
            },
            LedgerErrorView::Poisoned => begins(text@, "task ledger lock was poisoned"@),
            LedgerErrorView::UnknownTask(id) => says(text@, "task `"@, id),
            LedgerErrorView::InvalidTransition { task_id, status, operation } => {
                &&& says(text@, "invalid transition for task `"@, task_id)
                &&& says(text@, "invalid transition for task `"@, status_name(status))
                &&& says(text@, "invalid transition for task `"@, operation)
            },
        },
{
    match error@ {
        LedgerErrorView::Io(detail) => {
            lemma_says(text@, "task ledger I/O error: "@, Seq::empty(), detail, Seq::empty());
        },
        LedgerErrorView::Serialization(detail) => {
            lemma_says(
                text@,
                "task ledger serialization error: "@,
                Seq::empty(),
                detail,
                Seq::empty(),
            );
        },
        LedgerErrorView::Corrupt { line, message } => {
            lemma_says(
                text@,
                "corrupt task ledger at line "@,
                Seq::empty(),
                decimal_of(line as nat),
                ": "@ + message,
            );
            lemma_says(
                text@,
                "corrupt task ledger at line "@,
                decimal_of(line as nat) + ": "@,
                message,
                Seq::empty(),
            );
        },
        LedgerErrorView::Poisoned => {
            assert(text@.subrange(0, text@.len() as int) =~= text@);
        },
        LedgerErrorView::UnknownTask(id) => {
            lemma_says(text@, "task `"@, Seq::empty(), id, "` does not exist"@);
        },
        LedgerErrorView::InvalidTransition { task_id, status, operation } => {
            lemma_says(
                text@,
                "invalid transition for task `"@,
                Seq::empty(),
                task_id,
                "` from "@ + status_name(status) + ": "@ + operation,
            );
            lemma_says(
                text@,
                "invalid transition for task `"@,
                task_id + "` from "@,
                status_name(status),
                ": "@ + operation,
            );
            lemma_says(
                text@,
                "invalid transition for task `"@,
                task_id + "` from "@ + status_name(status) + ": "@,
                operation,
                Seq::empty(),
            );
        },
    }
}

/// An error of a task tells its kind and its detail.
pub proof fn law_task_errors_tell_what_failed(error: TaskError, text: String)
    requires
        call_ensures(TaskError::to_text, (&error,), text),
    ensures
        match error@ {
            TaskErrorView::Io(detail) => says(text@, "task journal I/O: "@, detail),
            TaskErrorView::Json(detail) => says(text@, "task journal JSON: "@, detail),
            TaskErrorView::Invalid(detail) => says(
                text@,
                "invalid task transition or journal: "@,
                detail,
            ),
        },
{
    match error@ {
        TaskErrorView::Io(detail) => {
            lemma_says(text@, "task journal I/O: "@, Seq::empty(), detail, Seq::empty());
        },
        TaskErrorView::Json(detail) => {
            lemma_says(text@, "task journal JSON: "@, Seq::empty(), detail, Seq::empty());
        },
        TaskErrorView::Invalid(detail) => {
            lemma_says(
                text@,
                "invalid task transition or journal: "@,
                Seq::empty(),
                detail,
                Seq::empty(),
            );
        },
    }
}

/// An error of the server tells its side and its detail.
pub proof fn law_server_errors_tell_what_failed(error: ServerError, text: String)
    requires
        call_ensures(ServerError::to_text, (&error,), text),
    ensures
        match error@ {
            ServerErrorView::Input(detail) => says(text@, "JSON-RPC input error: "@, detail),
            ServerErrorView::Output(detail) => says(text@, "JSON-RPC output error: "@, detail),
        },
{
    match error@ {
        ServerErrorView::Input(detail) => {
            lemma_says(text@, "JSON-RPC input error: "@, Seq::empty(), detail, Seq::empty());
        },
        ServerErrorView::Output(detail) => {
            lemma_says(text@, "JSON-RPC output error: "@, Seq::empty(), detail, Seq::empty());
        },
    }
}

/// An error of the runtime tells what the failed part tells, or names the thread, the turn, the
/// tool and the call that it is about.
pub proof fn law_runtime_errors_tell_what_failed(error: RuntimeError, text: String)
    requires
        call_ensures(RuntimeError::to_text, (&error,), text),
    ensures
        match error@ {
            RuntimeErrorView::Store(inner) => text@ == store_error_text(inner),
            RuntimeErrorView::Context(inner) => text@ == context_error_text(inner),
            RuntimeErrorView::Model(inner) => says(text@, "model request failed: "@, inner.message),
            RuntimeErrorView::Hook(inner) => {
                &&& says(text@, "hook `"@, inner.hook)
                &&& says(text@, "hook `"@, inner.point)
                &&& says(text@, "hook `"@, inner.reason)
            },
            RuntimeErrorView::UnknownThread(thread_id) => says(text@, "thread `"@, thread_id),
            RuntimeErrorView::ConcurrentTurn(thread_id) => says(text@, "thread `"@, thread_id),
            RuntimeErrorView::DuplicateTurn { thread_id, turn_id } => {
                &&& says(text@, "turn `"@, turn_id)
                &&& says(text@, "turn `"@, thread_id)
            },
            RuntimeErrorView::InvalidModelResponse { turn_id, reason } => {
                &&& says(text@, "model returned an invalid response for turn `"@, turn_id)
                &&& says(text@, "model returned an invalid response for turn `"@, reason)
            },
            RuntimeErrorView::Cancelled(turn_id) => says(text@, "turn `"@, turn_id),
            RuntimeErrorView::MaxModelIterations { turn_id, maximum } => {
                &&& says(text@, "turn `"@, turn_id)
                &&& says(text@, "turn `"@, decimal_of(maximum as nat))
            },
            RuntimeErrorView::ReceiptPersistenceUnknown { call_id, tool_name, source } => {
                &&& says(text@, "tool `"@, tool_name)
                &&& says(text@, "tool `"@, call_id)
                &&& says(text@, "tool `"@, store_error_text(source))
            },
        },
{
    match error@ {
        RuntimeErrorView::Store(inner) => {},
        RuntimeErrorView::Context(inner) => {},
        RuntimeErrorView::Model(inner) => {
            lemma_says(
                text@,
                "model request failed: "@,
                Seq::empty(),
                inner.message,
                Seq::empty(),
            );
        },
        RuntimeErrorView::Hook(inner) => {
            lemma_says(
                text@,
                "hook `"@,
                Seq::empty(),
                inner.hook,
                "` rejected "@ + inner.point + ": "@ + inner.reason,
            );
            lemma_says(
                text@,
                "hook `"@,
                inner.hook + "` rejected "@,
                inner.point,
                ": "@ + inner.reason,
            );
            lemma_says(
                text@,
                "hook `"@,
                inner.hook + "` rejected "@ + inner.point + ": "@,
                inner.reason,
                Seq::empty(),
            );
        },
        RuntimeErrorView::UnknownThread(thread_id) => {
            lemma_says(text@, "thread `"@, Seq::empty(), thread_id, "` does not exist"@);
        },
        RuntimeErrorView::ConcurrentTurn(thread_id) => {
            lemma_says(
                text@,
                "thread `"@,
                Seq::empty(),
                thread_id,
                "` already has an active turn"@,
            );
        },
        RuntimeErrorView::DuplicateTurn { thread_id, turn_id } => {
            lemma_says(
                text@,
                "turn `"@,
                Seq::empty(),
                turn_id,
                "` already exists in thread `"@ + thread_id + "`"@,
            );
            lemma_says(
                text@,
                "turn `"@,
                turn_id + "` already exists in thread `"@,
                thread_id,
                "`"@,
            );
        },
        RuntimeErrorView::InvalidModelResponse { turn_id, reason } => {
            lemma_says(
                text@,
                "model returned an invalid response for turn `"@,
                Seq::empty(),
                turn_id,
                "`: "@ + reason,
            );
            lemma_says(
                text@,
                "model returned an invalid response for turn `"@,
                turn_id + "`: "@,
                reason,
                Seq::empty(),
            );
        },
        RuntimeErrorView::Cancelled(turn_id) => {
            lemma_says(text@, "turn `"@, Seq::empty(), turn_id, "` was cancelled"@);
        },
        RuntimeErrorView::MaxModelIterations { turn_id, maximum } => {
            lemma_says(
                text@,
                "turn `"@,
                Seq::empty(),
                turn_id,
                "` exceeded "@ + decimal_of(maximum as nat) + " model iterations"@,
            );
            lemma_says(
                text@,
                "turn `"@,
                turn_id + "` exceeded "@,
                decimal_of(maximum as nat),
                " model iterations"@,
            );
        },
        RuntimeErrorView::ReceiptPersistenceUnknown { call_id, tool_name, source } => {
            lemma_says(
                text@,
                "tool `"@,
                Seq::empty(),
                tool_name,
                "` may have changed external state, but receipt `"@ + call_id
                    + "` could not be persisted: "@ + store_error_text(source),
            );
            lemma_says(
                text@,
                "tool `"@,
                tool_name + "` may have changed external state, but receipt `"@,
                call_id,
                "` could not be persisted: "@ + store_error_text(source),
            );
            lemma_says(
                text@,
                "tool `"@,
                tool_name + "` may have changed external state, but receipt `"@ + call_id
                    + "` could not be persisted: "@,
                store_error_text(source),
                Seq::empty(),
            );
        },
    }
}

} // verus!
