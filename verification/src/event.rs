//! The events that a thread records.

use vstd::prelude::*;
use vstd::string::*;

use crate::datum::{opt_view, same_all, same_opt, snapshot_all, snapshot_opt, views, Datum};
use crate::approval::{ApprovalDecision, ApprovalDecisionView, ApprovalRequest, ApprovalRequestView};
use crate::id::{CallId, EventId, ThreadId, TurnId};
use crate::model::{StopReason, TokenUsage};
use crate::protocol::{
    PreparedToolCall, PreparedToolCallView, ToolCall, ToolCallView, ToolReceipt, ToolReceiptView,
};

verus! {

/// Where a hook is asked.
#[derive(Clone, Copy, Debug, PartialEq, Eq, Structural)]
pub enum HookPoint {
    BeforeModel,
    BeforeTool,
    AfterTool,
}

/// What happened in a thread.
#[derive(Debug, PartialEq, Eq)]
pub enum RuntimeEvent {
    ThreadStarted,
    TurnStarted,
    UserMessage { content: String },
    ContextCompiled {
        iteration: usize,
        prompt_segments: usize,
        message_count: usize,
        visible_tools: Vec<String>,
    },
    ModelRequestStarted { iteration: usize },
    AssistantMessage {
        content: String,
        tool_calls: Vec<ToolCall>,
        stop_reason: StopReason,
        usage: TokenUsage,
    },
    ToolPrepared { prepared: PreparedToolCall },
    ApprovalRequested { request: ApprovalRequest },
    ApprovalResolved { call_id: CallId, decision: ApprovalDecision },
    ToolExecutionStarted { prepared: PreparedToolCall },
    ToolReceiptRecorded { receipt: ToolReceipt },
    HookFailed { hook: String, point: HookPoint, reason: String },
    TurnCompleted { content: String },
    TurnFailed { error: String },
    TurnCancelled,
}

/// The model of [`RuntimeEvent`].
#[verifier::ext_equal]
pub ghost enum RuntimeEventView {
    ThreadStarted,
    TurnStarted,
    UserMessage { content: Seq<char> },
    ContextCompiled {
        iteration: usize,
        prompt_segments: usize,
        message_count: usize,
        visible_tools: Seq<Seq<char>>,
    },
    ModelRequestStarted { iteration: usize },
    AssistantMessage {
        content: Seq<char>,
        tool_calls: Seq<ToolCallView>,
        stop_reason: StopReason,
        usage: TokenUsage,
    },
    ToolPrepared { prepared: PreparedToolCallView },
    ApprovalRequested { request: ApprovalRequestView },
    ApprovalResolved { call_id: Seq<char>, decision: ApprovalDecisionView },
    ToolExecutionStarted { prepared: PreparedToolCallView },
    ToolReceiptRecorded { receipt: ToolReceiptView },
    HookFailed { hook: Seq<char>, point: HookPoint, reason: Seq<char> },
    TurnCompleted { content: Seq<char> },
    TurnFailed { error: Seq<char> },
    TurnCancelled,
}

impl View for RuntimeEvent {
    type V = RuntimeEventView;

    open spec fn view(&self) -> RuntimeEventView {
        match *self {
            RuntimeEvent::ThreadStarted => RuntimeEventView::ThreadStarted,
            RuntimeEvent::TurnStarted => RuntimeEventView::TurnStarted,
            RuntimeEvent::UserMessage { content } => RuntimeEventView::UserMessage {
                content: content@,
            },
            RuntimeEvent::ContextCompiled {
                iteration,
                prompt_segments,
                message_count,
                visible_tools,
            } => RuntimeEventView::ContextCompiled {
                iteration,
                prompt_segments,
                message_count,
                visible_tools: views(visible_tools@),
            },
            RuntimeEvent::ModelRequestStarted { iteration } => {
                RuntimeEventView::ModelRequestStarted { iteration }
            },
            RuntimeEvent::AssistantMessage { content, tool_calls, stop_reason, usage } => {
                RuntimeEventView::AssistantMessage {
                    content: content@,
                    tool_calls: views(tool_calls@),
                    stop_reason,
                    usage,
                }
            },
            RuntimeEvent::ToolPrepared { prepared } => RuntimeEventView::ToolPrepared {
                prepared: prepared@,
            },
            RuntimeEvent::ApprovalRequested { request } => RuntimeEventView::ApprovalRequested {
                request: request@,
            },
            RuntimeEvent::ApprovalResolved { call_id, decision } => {
                RuntimeEventView::ApprovalResolved { call_id: call_id@, decision: decision@ }
            },
            RuntimeEvent::ToolExecutionStarted { prepared } => {
                RuntimeEventView::ToolExecutionStarted { prepared: prepared@ }
            },
            RuntimeEvent::ToolReceiptRecorded { receipt } => RuntimeEventView::ToolReceiptRecorded {
                receipt: receipt@,
            },
            RuntimeEvent::HookFailed { hook, point, reason } => RuntimeEventView::HookFailed {
                hook: hook@,
                point,
                reason: reason@,
            },
            RuntimeEvent::TurnCompleted { content } => RuntimeEventView::TurnCompleted {
                content: content@,
            },
            RuntimeEvent::TurnFailed { error } => RuntimeEventView::TurnFailed { error: error@ },
            RuntimeEvent::TurnCancelled => RuntimeEventView::TurnCancelled,
        }
    }
}

impl Datum for RuntimeEvent {
    fn snapshot(&self) -> (copy: Self) {
        match self {
            RuntimeEvent::ThreadStarted => RuntimeEvent::ThreadStarted,
            RuntimeEvent::TurnStarted => RuntimeEvent::TurnStarted,
            RuntimeEvent::UserMessage { content } => RuntimeEvent::UserMessage {
                content: content.snapshot(),
            },
            RuntimeEvent::ContextCompiled {
                iteration,
                prompt_segments,
                message_count,
                visible_tools,
            } => RuntimeEvent::ContextCompiled {
                iteration: *iteration,
                prompt_segments: *prompt_segments,
                message_count: *message_count,
                visible_tools: snapshot_all(visible_tools),
            },
            RuntimeEvent::ModelRequestStarted { iteration } => RuntimeEvent::ModelRequestStarted {
                iteration: *iteration,
            },
            RuntimeEvent::AssistantMessage { content, tool_calls, stop_reason, usage } => {
                RuntimeEvent::AssistantMessage {
                    content: content.snapshot(),
                    tool_calls: snapshot_all(tool_calls),
                    stop_reason: *stop_reason,
                    usage: *usage,
                }
            },
            RuntimeEvent::ToolPrepared { prepared } => RuntimeEvent::ToolPrepared {
                prepared: prepared.snapshot(),
            },
            RuntimeEvent::ApprovalRequested { request } => RuntimeEvent::ApprovalRequested {
                request: request.snapshot(),
            },
            RuntimeEvent::ApprovalResolved { call_id, decision } => RuntimeEvent::ApprovalResolved {
                call_id: call_id.snapshot(),
                decision: decision.snapshot(),
            },
            RuntimeEvent::ToolExecutionStarted { prepared } => RuntimeEvent::ToolExecutionStarted {
                prepared: prepared.snapshot(),
            },
            RuntimeEvent::ToolReceiptRecorded { receipt } => RuntimeEvent::ToolReceiptRecorded {
                receipt: receipt.snapshot(),
            },
            RuntimeEvent::HookFailed { hook, point, reason } => RuntimeEvent::HookFailed {
                hook: hook.snapshot(),
                point: *point,
                reason: reason.snapshot(),
            },
            RuntimeEvent::TurnCompleted { content } => RuntimeEvent::TurnCompleted {
                content: content.snapshot(),
            },
            RuntimeEvent::TurnFailed { error } => RuntimeEvent::TurnFailed {
                error: error.snapshot(),
            },
            RuntimeEvent::TurnCancelled => RuntimeEvent::TurnCancelled,
        }
    }

    fn same(&self, other: &Self) -> (equal: bool) {
        match (self, other) {
            (RuntimeEvent::ThreadStarted, RuntimeEvent::ThreadStarted) => true,
            (RuntimeEvent::TurnStarted, RuntimeEvent::TurnStarted) => true,
            (
                RuntimeEvent::UserMessage { content: content_a },
                RuntimeEvent::UserMessage { content: content_b },
            ) => content_a.same(content_b),
            (
                RuntimeEvent::ContextCompiled {
                    iteration: iteration_a,
                    prompt_segments: prompt_segments_a,
                    message_count: message_count_a,
                    visible_tools: visible_tools_a,
                },
                RuntimeEvent::ContextCompiled {
                    iteration: iteration_b,
                    prompt_segments: prompt_segments_b,
                    message_count: message_count_b,
                    visible_tools: visible_tools_b,
                },
            ) => {
                *iteration_a == *iteration_b && *prompt_segments_a == *prompt_segments_b
                    && *message_count_a == *message_count_b
                    && same_all(visible_tools_a, visible_tools_b)
            },
            (
                RuntimeEvent::ModelRequestStarted { iteration: iteration_a },
                RuntimeEvent::ModelRequestStarted { iteration: iteration_b },
            ) => *iteration_a == *iteration_b,
            (
                RuntimeEvent::AssistantMessage {
                    content: content_a,
                    tool_calls: tool_calls_a,
                    stop_reason: stop_reason_a,
                    usage: usage_a,
                },
                RuntimeEvent::AssistantMessage {
                    content: content_b,
                    tool_calls: tool_calls_b,
                    stop_reason: stop_reason_b,
                    usage: usage_b,
                },
            ) => {
                content_a.same(content_b) && same_all(tool_calls_a, tool_calls_b)
                    && *stop_reason_a == *stop_reason_b && *usage_a == *usage_b
            },
            (
                RuntimeEvent::ToolPrepared { prepared: prepared_a },
                RuntimeEvent::ToolPrepared { prepared: prepared_b },
            ) => prepared_a.same(prepared_b),
            (
                RuntimeEvent::ApprovalRequested { request: request_a },
                RuntimeEvent::ApprovalRequested { request: request_b },
            ) => request_a.same(request_b),
            (
                RuntimeEvent::ApprovalResolved { call_id: call_id_a, decision: decision_a },
                RuntimeEvent::ApprovalResolved { call_id: call_id_b, decision: decision_b },
            ) => call_id_a.same(call_id_b) && decision_a.same(decision_b),
            (
                RuntimeEvent::ToolExecutionStarted { prepared: prepared_a },
                RuntimeEvent::ToolExecutionStarted { prepared: prepared_b },
            ) => prepared_a.same(prepared_b),
            (
                RuntimeEvent::ToolReceiptRecorded { receipt: receipt_a },
                RuntimeEvent::ToolReceiptRecorded { receipt: receipt_b },
            ) => receipt_a.same(receipt_b),
            (
                RuntimeEvent::HookFailed { hook: hook_a, point: point_a, reason: reason_a },
                RuntimeEvent::HookFailed { hook: hook_b, point: point_b, reason: reason_b },
            ) => hook_a.same(hook_b) && *point_a == *point_b && reason_a.same(reason_b),
            (
                RuntimeEvent::TurnCompleted { content: content_a },
                RuntimeEvent::TurnCompleted { content: content_b },
            ) => content_a.same(content_b),
            (
                RuntimeEvent::TurnFailed { error: error_a },
                RuntimeEvent::TurnFailed { error: error_b },
            ) => error_a.same(error_b),
            (RuntimeEvent::TurnCancelled, RuntimeEvent::TurnCancelled) => true,
            _ => false,
        }
    }
}

impl Clone for RuntimeEvent {
    fn clone(&self) -> (copy: Self)
        ensures
            copy@ == self@,
    {
        self.snapshot()
    }
}

/// An event as it is recorded.
#[derive(Debug, PartialEq, Eq)]
pub struct EventEnvelope {
    pub id: EventId,
    pub sequence: u64,
    pub at_unix_ms: u128,
    pub thread_id: ThreadId,
    pub turn_id: Option<TurnId>,
    pub event: RuntimeEvent,
}

/// The model of [`EventEnvelope`].
#[verifier::ext_equal]
pub ghost struct EventEnvelopeView {
    pub id: Seq<char>,
    pub sequence: u64,
    pub at_unix_ms: u128,
    pub thread_id: Seq<char>,
    pub turn_id: Option<Seq<char>>,
    pub event: RuntimeEventView,
}

impl View for EventEnvelope {
    type V = EventEnvelopeView;

    open spec fn view(&self) -> EventEnvelopeView {
        EventEnvelopeView {
            id: self.id@,
            sequence: self.sequence,
            at_unix_ms: self.at_unix_ms,
            thread_id: self.thread_id@,
            turn_id: opt_view(self.turn_id),
            event: self.event@,
        }
    }
}

impl Datum for EventEnvelope {
    fn snapshot(&self) -> (copy: Self) {
        EventEnvelope {
            id: self.id.snapshot(),
            sequence: self.sequence,
            at_unix_ms: self.at_unix_ms,
            thread_id: self.thread_id.snapshot(),
            turn_id: snapshot_opt(&self.turn_id),
            event: self.event.snapshot(),
        }
    }

    fn same(&self, other: &Self) -> (equal: bool) {
        self.id.same(&other.id) && self.sequence == other.sequence
            && self.at_unix_ms == other.at_unix_ms && self.thread_id.same(&other.thread_id)
            && same_opt(&self.turn_id, &other.turn_id) && self.event.same(&other.event)
    }
}

impl Clone for EventEnvelope {
    fn clone(&self) -> (copy: Self)
        ensures
            copy@ == self@,
    {
        self.snapshot()
    }
}

} // verus!
