//! The agent loop of one turn, as a state machine whose effects the host performs.

use vstd::prelude::*;
use vstd::string::*;

use crate::datum::{
    done_view, holds, lemma_views_push, list_view, opt_view, res_view, snapshot_all, views, Datum,
};
use crate::approval::{
    approval_error_text, ApprovalDecision, ApprovalDecisionView, ApprovalError, ApprovalRequest,
    ApprovalRequestView,
};
use crate::context::{
    context_error_text, CompiledContext, CompiledContextView, ContextError, ContextErrorView,
    ContextInput, ContextInputView,
};
use crate::event::{EventEnvelope, EventEnvelopeView, HookPoint, RuntimeEvent, RuntimeEventView};
use crate::hook::{hook_error_text, HookContext, HookContextView, HookError, HookErrorView};
use crate::id::{CallId, ThreadId, TurnId};
use crate::model::{
    model_error_text, ModelError, ModelErrorView, ModelRequest, ModelRequestView, ModelResponse,
    ModelResponseView, StopReason,
};
use crate::policy::{projected_access, Access, CapabilityProjection};
use crate::protocol::{
    denied_receipt, ended_receipt, equal_actions, malformed_receipt, succeeded_receipt,
    CanonicalActionView, PreparedToolCall, PreparedToolCallView, ReceiptStatus, ToolCall,
    ToolCallView, ToolReceipt, ToolReceiptView, TranscriptMessage, TranscriptMessageView,
};
use crate::store::{store_error_text, StoreError, StoreErrorView};
use crate::text::{blank, decimal_of, decimal_usize, is_blank};
use crate::tool::{
    tool_error_text, ToolDefinition, ToolDefinitionView, ToolError, ToolErrorView, ToolOutput,
    ToolOutputView,
};

verus! {

/// A completed turn.
#[derive(Debug, PartialEq, Eq)]
pub struct TurnOutcome {
    pub thread_id: ThreadId,
    pub turn_id: TurnId,
    pub content: String,
    pub model_iterations: usize,
}

/// The model of [`TurnOutcome`].
#[verifier::ext_equal]
pub ghost struct TurnOutcomeView {
    pub thread_id: Seq<char>,
    pub turn_id: Seq<char>,
    pub content: Seq<char>,
    pub model_iterations: usize,
}

impl View for TurnOutcome {
    type V = TurnOutcomeView;

    open spec fn view(&self) -> TurnOutcomeView {
        TurnOutcomeView {
            thread_id: self.thread_id@,
            turn_id: self.turn_id@,
            content: self.content@,
            model_iterations: self.model_iterations,
        }
    }
}

impl Datum for TurnOutcome {
    fn snapshot(&self) -> (copy: Self) {
        TurnOutcome {
            thread_id: self.thread_id.snapshot(),
            turn_id: self.turn_id.snapshot(),
            content: self.content.snapshot(),
            model_iterations: self.model_iterations,
        }
    }

    fn same(&self, other: &Self) -> (equal: bool) {
        self.thread_id.same(&other.thread_id) && self.turn_id.same(&other.turn_id)
            && self.content.same(&other.content) && self.model_iterations == other.model_iterations
    }
}

impl Clone for TurnOutcome {
    fn clone(&self) -> (copy: Self)
        ensures
            copy@ == self@,
    {
        self.snapshot()
    }
}

/// Why a turn did not complete.
#[derive(Debug, PartialEq, Eq)]
pub enum RuntimeError {
    Store(StoreError),
    Context(ContextError),
    Model(ModelError),
    Hook(HookError),
    UnknownThread(ThreadId),
    ConcurrentTurn(ThreadId),
    DuplicateTurn { thread_id: ThreadId, turn_id: TurnId },
    InvalidModelResponse { turn_id: TurnId, reason: String },
    Cancelled(TurnId),
    MaxModelIterations { turn_id: TurnId, maximum: usize },
    /// A tool may have changed something, but its receipt is not durable.
    ReceiptPersistenceUnknown { call_id: CallId, tool_name: String, source: StoreError },
}

/// The model of [`RuntimeError`].
#[verifier::ext_equal]
pub ghost enum RuntimeErrorView {
    Store(StoreErrorView),
    Context(ContextErrorView),
    Model(ModelErrorView),
    Hook(HookErrorView),
    UnknownThread(Seq<char>),
    ConcurrentTurn(Seq<char>),
    DuplicateTurn { thread_id: Seq<char>, turn_id: Seq<char> },
    InvalidModelResponse { turn_id: Seq<char>, reason: Seq<char> },
    Cancelled(Seq<char>),
    MaxModelIterations { turn_id: Seq<char>, maximum: usize },
    ReceiptPersistenceUnknown { call_id: Seq<char>, tool_name: Seq<char>, source: StoreErrorView },
}

impl View for RuntimeError {
    type V = RuntimeErrorView;

    open spec fn view(&self) -> RuntimeErrorView {
        match *self {
            RuntimeError::Store(x0) => RuntimeErrorView::Store(x0@),
            RuntimeError::Context(x0) => RuntimeErrorView::Context(x0@),
            RuntimeError::Model(x0) => RuntimeErrorView::Model(x0@),
            RuntimeError::Hook(x0) => RuntimeErrorView::Hook(x0@),
            RuntimeError::UnknownThread(x0) => RuntimeErrorView::UnknownThread(x0@),
            RuntimeError::ConcurrentTurn(x0) => RuntimeErrorView::ConcurrentTurn(x0@),
            RuntimeError::DuplicateTurn { thread_id, turn_id } => RuntimeErrorView::DuplicateTurn {
                thread_id: thread_id@,
                turn_id: turn_id@,
            },
            RuntimeError::InvalidModelResponse { turn_id, reason } => {
                RuntimeErrorView::InvalidModelResponse { turn_id: turn_id@, reason: reason@ }
            },
            RuntimeError::Cancelled(x0) => RuntimeErrorView::Cancelled(x0@),
            RuntimeError::MaxModelIterations { turn_id, maximum } => {
                RuntimeErrorView::MaxModelIterations { turn_id: turn_id@, maximum }
            },
            RuntimeError::ReceiptPersistenceUnknown { call_id, tool_name, source } => {
                RuntimeErrorView::ReceiptPersistenceUnknown {
                    call_id: call_id@,
                    tool_name: tool_name@,
                    source: source@,
                }
            },
        }
    }
}

impl Datum for RuntimeError {
    fn snapshot(&self) -> (copy: Self) {
        match self {
            RuntimeError::Store(x0) => RuntimeError::Store(x0.snapshot()),
            RuntimeError::Context(x0) => RuntimeError::Context(x0.snapshot()),
            RuntimeError::Model(x0) => RuntimeError::Model(x0.snapshot()),
            RuntimeError::Hook(x0) => RuntimeError::Hook(x0.snapshot()),
            RuntimeError::UnknownThread(x0) => RuntimeError::UnknownThread(x0.snapshot()),
            RuntimeError::ConcurrentTurn(x0) => RuntimeError::ConcurrentTurn(x0.snapshot()),
            RuntimeError::DuplicateTurn { thread_id, turn_id } => RuntimeError::DuplicateTurn {
                thread_id: thread_id.snapshot(),
                turn_id: turn_id.snapshot(),
            },
            RuntimeError::InvalidModelResponse { turn_id, reason } => {
                RuntimeError::InvalidModelResponse {
                    turn_id: turn_id.snapshot(),
                    reason: reason.snapshot(),
                }
            },
            RuntimeError::Cancelled(x0) => RuntimeError::Cancelled(x0.snapshot()),
            RuntimeError::MaxModelIterations { turn_id, maximum } => {
                RuntimeError::MaxModelIterations { turn_id: turn_id.snapshot(), maximum: *maximum }
            },
            RuntimeError::ReceiptPersistenceUnknown { call_id, tool_name, source } => {
                RuntimeError::ReceiptPersistenceUnknown {
                    call_id: call_id.snapshot(),
                    tool_name: tool_name.snapshot(),
                    source: source.snapshot(),
                }
            },
        }
    }

    fn same(&self, other: &Self) -> (equal: bool) {
        match (self, other) {
            (RuntimeError::Store(x0), RuntimeError::Store(y0)) => x0.same(y0),
            (RuntimeError::Context(x0), RuntimeError::Context(y0)) => x0.same(y0),
            (RuntimeError::Model(x0), RuntimeError::Model(y0)) => x0.same(y0),
            (RuntimeError::Hook(x0), RuntimeError::Hook(y0)) => x0.same(y0),
            (RuntimeError::UnknownThread(x0), RuntimeError::UnknownThread(y0)) => x0.same(y0),
            (RuntimeError::ConcurrentTurn(x0), RuntimeError::ConcurrentTurn(y0)) => x0.same(y0),
            (
                RuntimeError::DuplicateTurn { thread_id: thread_id_a, turn_id: turn_id_a },
                RuntimeError::DuplicateTurn { thread_id: thread_id_b, turn_id: turn_id_b },
            ) => thread_id_a.same(thread_id_b) && turn_id_a.same(turn_id_b),
            (
                RuntimeError::InvalidModelResponse { turn_id: turn_id_a, reason: reason_a },
                RuntimeError::InvalidModelResponse { turn_id: turn_id_b, reason: reason_b },
            ) => turn_id_a.same(turn_id_b) && reason_a.same(reason_b),
            (RuntimeError::Cancelled(x0), RuntimeError::Cancelled(y0)) => x0.same(y0),
            (
                RuntimeError::MaxModelIterations { turn_id: turn_id_a, maximum: maximum_a },
                RuntimeError::MaxModelIterations { turn_id: turn_id_b, maximum: maximum_b },
            ) => turn_id_a.same(turn_id_b) && *maximum_a == *maximum_b,
            (
                RuntimeError::ReceiptPersistenceUnknown {
                    call_id: call_id_a,
                    tool_name: tool_name_a,
                    source: source_a,
                },
                RuntimeError::ReceiptPersistenceUnknown {
                    call_id: call_id_b,
                    tool_name: tool_name_b,
                    source: source_b,
                },
            ) => {
                call_id_a.same(call_id_b) && tool_name_a.same(tool_name_b)
                    && source_a.same(source_b)
            },
            _ => false,
        }
    }
}

impl Clone for RuntimeError {
    fn clone(&self) -> (copy: Self)
        ensures
            copy@ == self@,
    {
        self.snapshot()
    }
}

/// The message of a runtime failure.
pub open spec fn runtime_error_text(error: RuntimeErrorView) -> Seq<char> {
    match error {
        RuntimeErrorView::Store(inner) => store_error_text(inner),
        RuntimeErrorView::Context(inner) => context_error_text(inner),
        RuntimeErrorView::Model(inner) => model_error_text(inner),
        RuntimeErrorView::Hook(inner) => hook_error_text(inner),
        RuntimeErrorView::UnknownThread(thread_id) => "thread `"@ + thread_id + "` does not exist"@,
        RuntimeErrorView::ConcurrentTurn(thread_id) => {
            "thread `"@ + thread_id + "` already has an active turn"@
        },
        RuntimeErrorView::DuplicateTurn { thread_id, turn_id } => {
            "turn `"@ + turn_id + "` already exists in thread `"@ + thread_id + "`"@
        },
        RuntimeErrorView::InvalidModelResponse { turn_id, reason } => {
            "model returned an invalid response for turn `"@ + turn_id + "`: "@ + reason
        },
        RuntimeErrorView::Cancelled(turn_id) => "turn `"@ + turn_id + "` was cancelled"@,
        RuntimeErrorView::MaxModelIterations { turn_id, maximum } => {
            "turn `"@ + turn_id + "` exceeded "@ + decimal_of(maximum as nat) + " model iterations"@
        },
        RuntimeErrorView::ReceiptPersistenceUnknown { call_id, tool_name, source } => {
            "tool `"@ + tool_name + "` may have changed external state, but receipt `"@ + call_id
                + "` could not be persisted: "@ + store_error_text(source)
        },
    }
}

impl RuntimeError {
    pub fn to_text(&self) -> (text: String)
        ensures
            text@ == runtime_error_text(self@),
    {
        match self {
            RuntimeError::Store(inner) => inner.to_text(),
            RuntimeError::Context(inner) => inner.to_text(),
            RuntimeError::Model(inner) => inner.to_text(),
            RuntimeError::Hook(inner) => inner.to_text(),
            RuntimeError::UnknownThread(thread_id) => {
                "thread `".to_owned().concat(thread_id.as_str()).concat("` does not exist")
            },
            RuntimeError::ConcurrentTurn(thread_id) => {
                "thread `".to_owned().concat(thread_id.as_str()).concat(
                    "` already has an active turn",
                )
            },
            RuntimeError::DuplicateTurn { thread_id, turn_id } => {
                "turn `".to_owned().concat(turn_id.as_str()).concat(
                    "` already exists in thread `",
                ).concat(thread_id.as_str()).concat("`")
            },
            RuntimeError::InvalidModelResponse { turn_id, reason } => {
                "model returned an invalid response for turn `".to_owned().concat(
                    turn_id.as_str(),
                ).concat("`: ").concat(reason.as_str())
            },
            RuntimeError::Cancelled(turn_id) => {
                "turn `".to_owned().concat(turn_id.as_str()).concat("` was cancelled")
            },
            RuntimeError::MaxModelIterations { turn_id, maximum } => {
                "turn `".to_owned().concat(turn_id.as_str()).concat("` exceeded ").concat(
                    decimal_usize(*maximum).as_str(),
                ).concat(" model iterations")
            },
            RuntimeError::ReceiptPersistenceUnknown { call_id, tool_name, source } => {
                "tool `".to_owned().concat(tool_name.as_str()).concat(
                    "` may have changed external state, but receipt `",
                ).concat(call_id.as_str()).concat("` could not be persisted: ").concat(
                    source.to_text().as_str(),
                )
            },
        }
    }
}

// ---------------------------------------------------------------------------
// What a turn works with
// ---------------------------------------------------------------------------

/// What stays the same while a turn runs.
#[derive(Debug)]
pub struct TurnFrame {
    pub thread_id: ThreadId,
    pub turn_id: TurnId,
    /// The names of the tools that the model may see.
    pub visible_names: Vec<String>,
    /// The definitions of those tools.
    pub visible_tools: Vec<ToolDefinition>,
    /// How far each tool may be used.
    pub capabilities: CapabilityProjection,
    /// The names of all registered tools.
    pub registered: Vec<String>,
    pub max_model_iterations: usize,
}

/// The model of [`TurnFrame`].
#[verifier::ext_equal]
pub ghost struct TurnFrameView {
    pub thread_id: Seq<char>,
    pub turn_id: Seq<char>,
    pub visible_names: Seq<Seq<char>>,
    pub visible_tools: Seq<ToolDefinitionView>,
    pub capabilities: Map<Seq<char>, Access>,
    pub registered: Seq<Seq<char>>,
    pub max_model_iterations: usize,
}

impl View for TurnFrame {
    type V = TurnFrameView;

    open spec fn view(&self) -> TurnFrameView {
        TurnFrameView {
            thread_id: self.thread_id@,
            turn_id: self.turn_id@,
            visible_names: views(self.visible_names@),
            visible_tools: views(self.visible_tools@),
            capabilities: self.capabilities@,
            registered: views(self.registered@),
            max_model_iterations: self.max_model_iterations,
        }
    }
}

/// What the host has to do next.
#[derive(Debug)]
pub enum Action {
    /// Make the event durable, then tell the observers.
    Persist(RuntimeEvent),
    /// Load the events of the thread.
    LoadThread,
    /// Say whether the turn has been cancelled.
    PollCancellation,
    Compile(ContextInput),
    CheckModel { context: HookContext, compiled: CompiledContext },
    AskModel(ModelRequest),
    /// Resolve the call to an action, without any effect.
    Prepare { call: ToolCall },
    CheckTool { context: HookContext, prepared: PreparedToolCall },
    RequestApproval(ApprovalRequest),
    /// Execute exactly this action.
    Execute(PreparedToolCall),
    CheckReceipt { context: HookContext, receipt: ToolReceipt },
    /// Nothing is left to do.
    Finish(Result<TurnOutcome, RuntimeError>),
}

/// The model of [`Action`].
#[verifier::ext_equal]
pub ghost enum ActionView {
    Persist(RuntimeEventView),
    LoadThread,
    PollCancellation,
    Compile(ContextInputView),
    CheckModel { context: HookContextView, compiled: CompiledContextView },
    AskModel(ModelRequestView),
    Prepare { call: ToolCallView },
    CheckTool { context: HookContextView, prepared: PreparedToolCallView },
    RequestApproval(ApprovalRequestView),
    Execute(PreparedToolCallView),
    CheckReceipt { context: HookContextView, receipt: ToolReceiptView },
    Finish(Result<TurnOutcomeView, RuntimeErrorView>),
}

impl View for Action {
    type V = ActionView;

    open spec fn view(&self) -> ActionView {
        match *self {
            Action::Persist(x0) => ActionView::Persist(x0@),
            Action::LoadThread => ActionView::LoadThread,
            Action::PollCancellation => ActionView::PollCancellation,
            Action::Compile(x0) => ActionView::Compile(x0@),
            Action::CheckModel { context, compiled } => ActionView::CheckModel {
                context: context@,
                compiled: compiled@,
            },
            Action::AskModel(x0) => ActionView::AskModel(x0@),
            Action::Prepare { call } => ActionView::Prepare { call: call@ },
            Action::CheckTool { context, prepared } => ActionView::CheckTool {
                context: context@,
                prepared: prepared@,
            },
            Action::RequestApproval(x0) => ActionView::RequestApproval(x0@),
            Action::Execute(x0) => ActionView::Execute(x0@),
            Action::CheckReceipt { context, receipt } => ActionView::CheckReceipt {
                context: context@,
                receipt: receipt@,
            },
            Action::Finish(x0) => ActionView::Finish(res_view(x0)),
        }
    }
}

/// What came of an action.
#[derive(Debug)]
pub enum Reply {
    Persisted(Result<(), StoreError>),
    Loaded(Result<Vec<EventEnvelope>, StoreError>),
    Polled(bool),
    Compiled(Result<CompiledContext, ContextError>),
    Checked(Result<(), HookError>),
    Answered(Result<ModelResponse, ModelError>),
    Prepared(Result<PreparedToolCall, ToolError>),
    Decided(Result<ApprovalDecision, ApprovalError>),
    Executed(Result<ToolOutput, ToolError>),
}

/// The model of [`Reply`].
#[verifier::ext_equal]
pub ghost enum ReplyView {
    Persisted(Result<(), StoreErrorView>),
    Loaded(Result<Seq<EventEnvelopeView>, StoreErrorView>),
    Polled(bool),
    Compiled(Result<CompiledContextView, ContextErrorView>),
    Checked(Result<(), HookErrorView>),
    Answered(Result<ModelResponseView, ModelErrorView>),
    Prepared(Result<PreparedToolCallView, ToolErrorView>),
    Decided(Result<ApprovalDecisionView, Seq<char>>),
    Executed(Result<ToolOutputView, ToolErrorView>),
}

impl View for Reply {
    type V = ReplyView;

    open spec fn view(&self) -> ReplyView {
        match *self {
            Reply::Persisted(x0) => ReplyView::Persisted(done_view(x0)),
            Reply::Loaded(x0) => ReplyView::Loaded(list_view(x0)),
            Reply::Polled(x0) => ReplyView::Polled(x0),
            Reply::Compiled(x0) => ReplyView::Compiled(res_view(x0)),
            Reply::Checked(x0) => ReplyView::Checked(done_view(x0)),
            Reply::Answered(x0) => ReplyView::Answered(res_view(x0)),
            Reply::Prepared(x0) => ReplyView::Prepared(res_view(x0)),
            Reply::Decided(x0) => ReplyView::Decided(res_view(x0)),
            Reply::Executed(x0) => ReplyView::Executed(res_view(x0)),
        }
    }
}

/// How a turn ends once its open calls are closed.
#[derive(Debug)]
pub enum Ending {
    Cancel,
    Fail { reason: String, error: RuntimeError },
}

/// The model of [`Ending`].
#[verifier::ext_equal]
pub ghost enum EndingView {
    Cancel,
    Fail { reason: Seq<char>, error: RuntimeErrorView },
}

impl View for Ending {
    type V = EndingView;

    open spec fn view(&self) -> EndingView {
        match *self {
            Ending::Cancel => EndingView::Cancel,
            Ending::Fail { reason, error } => EndingView::Fail { reason: reason@, error: error@ },
        }
    }
}

/// Where a turn stands. Each phase waits for one reply.
#[derive(Debug)]
pub enum Phase {
    Starting { input: String },
    Greeting { input: String },
    Loading,
    Iterating,
    Compiling,
    CheckingContext { compiled: CompiledContext },
    RecordingContext { compiled: CompiledContext },
    RecordingRequest { compiled: CompiledContext },
    Asking { compiled: CompiledContext },
    Weighing { answer: Result<ModelResponse, ModelError> },
    RecordingAnswer { response: ModelResponse, cancelled: bool },
    Completing { content: String },
    Approaching { calls: Vec<ToolCall>, index: usize },
    Preparing { calls: Vec<ToolCall>, index: usize },
    RecordingPrepared { calls: Vec<ToolCall>, index: usize, prepared: PreparedToolCall },
    CheckingTool { calls: Vec<ToolCall>, index: usize, prepared: PreparedToolCall },
    RecordingRefusal {
        calls: Vec<ToolCall>,
        index: usize,
        prepared: PreparedToolCall,
        refusal: HookError,
    },
    RecordingQuestion { calls: Vec<ToolCall>, index: usize, prepared: PreparedToolCall },
    AwaitingApproval { calls: Vec<ToolCall>, index: usize, prepared: PreparedToolCall },
    RecordingDecision {
        calls: Vec<ToolCall>,
        index: usize,
        prepared: PreparedToolCall,
        decision: ApprovalDecision,
    },
    RecordingStart { calls: Vec<ToolCall>, index: usize, prepared: PreparedToolCall },
    Executing { calls: Vec<ToolCall>, index: usize, prepared: PreparedToolCall },
    RecordingReceipt { calls: Vec<ToolCall>, index: usize, receipt: ToolReceipt, crossed: bool },
    CheckingReceipt { calls: Vec<ToolCall>, index: usize, receipt: ToolReceipt },
    RecordingHookFailure { point: HookPoint, refusal: HookError },
    Denying { calls: Vec<ToolCall>, index: usize, reason: String, ending: Ending },
    Cancelling,
    Failing { reason: String, error: RuntimeError },
    Finished { result: Result<TurnOutcome, RuntimeError> },
}

/// The model of [`Phase`].
#[verifier::ext_equal]
pub ghost enum PhaseView {
    Starting { input: Seq<char> },
    Greeting { input: Seq<char> },
    Loading,
    Iterating,
    Compiling,
    CheckingContext { compiled: CompiledContextView },
    RecordingContext { compiled: CompiledContextView },
    RecordingRequest { compiled: CompiledContextView },
    Asking { compiled: CompiledContextView },
    Weighing { answer: Result<ModelResponseView, ModelErrorView> },
    RecordingAnswer { response: ModelResponseView, cancelled: bool },
    Completing { content: Seq<char> },
    Approaching { calls: Seq<ToolCallView>, index: nat },
    Preparing { calls: Seq<ToolCallView>, index: nat },
    RecordingPrepared { calls: Seq<ToolCallView>, index: nat, prepared: PreparedToolCallView },
    CheckingTool { calls: Seq<ToolCallView>, index: nat, prepared: PreparedToolCallView },
    RecordingRefusal {
        calls: Seq<ToolCallView>,
        index: nat,
        prepared: PreparedToolCallView,
        refusal: HookErrorView,
    },
    RecordingQuestion { calls: Seq<ToolCallView>, index: nat, prepared: PreparedToolCallView },
    AwaitingApproval { calls: Seq<ToolCallView>, index: nat, prepared: PreparedToolCallView },
    RecordingDecision {
        calls: Seq<ToolCallView>,
        index: nat,
        prepared: PreparedToolCallView,
        decision: ApprovalDecisionView,
    },
    RecordingStart { calls: Seq<ToolCallView>, index: nat, prepared: PreparedToolCallView },
    Executing { calls: Seq<ToolCallView>, index: nat, prepared: PreparedToolCallView },
    RecordingReceipt {
        calls: Seq<ToolCallView>,
        index: nat,
        receipt: ToolReceiptView,
        crossed: bool,
    },
    CheckingReceipt { calls: Seq<ToolCallView>, index: nat, receipt: ToolReceiptView },
    RecordingHookFailure { point: HookPoint, refusal: HookErrorView },
    Denying { calls: Seq<ToolCallView>, index: nat, reason: Seq<char>, ending: EndingView },
    Cancelling,
    Failing { reason: Seq<char>, error: RuntimeErrorView },
    Finished { result: Result<TurnOutcomeView, RuntimeErrorView> },
}

impl View for Phase {
    type V = PhaseView;

    open spec fn view(&self) -> PhaseView {
        match *self {
            Phase::Starting { input } => PhaseView::Starting { input: input@ },
            Phase::Greeting { input } => PhaseView::Greeting { input: input@ },
            Phase::Loading => PhaseView::Loading,
            Phase::Iterating => PhaseView::Iterating,
            Phase::Compiling => PhaseView::Compiling,
            Phase::CheckingContext { compiled } => PhaseView::CheckingContext {
                compiled: compiled@,
            },
            Phase::RecordingContext { compiled } => PhaseView::RecordingContext {
                compiled: compiled@,
            },
            Phase::RecordingRequest { compiled } => PhaseView::RecordingRequest {
                compiled: compiled@,
            },
            Phase::Asking { compiled } => PhaseView::Asking { compiled: compiled@ },
            Phase::Weighing { answer } => PhaseView::Weighing { answer: res_view(answer) },
            Phase::RecordingAnswer { response, cancelled } => PhaseView::RecordingAnswer {
                response: response@,
                cancelled,
            },
            Phase::Completing { content } => PhaseView::Completing { content: content@ },
            Phase::Approaching { calls, index } => PhaseView::Approaching {
                calls: views(calls@),
                index: index as nat,
            },
            Phase::Preparing { calls, index } => PhaseView::Preparing {
                calls: views(calls@),
                index: index as nat,
            },
            Phase::RecordingPrepared { calls, index, prepared } => PhaseView::RecordingPrepared {
                calls: views(calls@),
                index: index as nat,
                prepared: prepared@,
            },
            Phase::CheckingTool { calls, index, prepared } => PhaseView::CheckingTool {
                calls: views(calls@),
                index: index as nat,
                prepared: prepared@,
            },
            Phase::RecordingRefusal { calls, index, prepared, refusal } => {
                PhaseView::RecordingRefusal {
                    calls: views(calls@),
                    index: index as nat,
                    prepared: prepared@,
                    refusal: refusal@,
                }
            },
            Phase::RecordingQuestion { calls, index, prepared } => PhaseView::RecordingQuestion {
                calls: views(calls@),
                index: index as nat,
                prepared: prepared@,
            },
            Phase::AwaitingApproval { calls, index, prepared } => PhaseView::AwaitingApproval {
                calls: views(calls@),
                index: index as nat,
                prepared: prepared@,
            },
            Phase::RecordingDecision { calls, index, prepared, decision } => {
                PhaseView::RecordingDecision {
                    calls: views(calls@),
                    index: index as nat,
                    prepared: prepared@,
                    decision: decision@,
                }
            },
            Phase::RecordingStart { calls, index, prepared } => PhaseView::RecordingStart {
                calls: views(calls@),
                index: index as nat,
                prepared: prepared@,
            },
            Phase::Executing { calls, index, prepared } => PhaseView::Executing {
                calls: views(calls@),
                index: index as nat,
                prepared: prepared@,
            },
            Phase::RecordingReceipt { calls, index, receipt, crossed } => {
                PhaseView::RecordingReceipt {
                    calls: views(calls@),
                    index: index as nat,
                    receipt: receipt@,
                    crossed,
                }
            },
            Phase::CheckingReceipt { calls, index, receipt } => PhaseView::CheckingReceipt {
                calls: views(calls@),
                index: index as nat,
                receipt: receipt@,
            },
            Phase::RecordingHookFailure { point, refusal } => PhaseView::RecordingHookFailure {
                point,
                refusal: refusal@,
            },
            Phase::Denying { calls, index, reason, ending } => PhaseView::Denying {
                calls: views(calls@),
                index: index as nat,
                reason: reason@,
                ending: ending@,
            },
            Phase::Cancelling => PhaseView::Cancelling,
            Phase::Failing { reason, error } => PhaseView::Failing {
                reason: reason@,
                error: error@,
            },
            Phase::Finished { result } => PhaseView::Finished { result: res_view(result) },
        }
    }
}

/// What a turn carries through its phases.
#[derive(Debug)]
struct Core {
    frame: TurnFrame,
    transcript: Vec<TranscriptMessage>,
    seen: Vec<CallId>,
    iteration: usize,
}

/// A running turn: an agent loop whose effects are left to the host. The host asks
/// for the pending action, performs it, and hands the reply back.
#[derive(Debug)]
pub struct Turn {
    core: Core,
    phase: Phase,
}

/// The model of [`Turn`].
#[verifier::ext_equal]
pub ghost struct TurnView {
    pub frame: TurnFrameView,
    /// The conversation so far.
    pub transcript: Seq<TranscriptMessageView>,
    /// The identifiers of all calls that the model emitted in this turn.
    pub seen: Seq<Seq<char>>,
    /// The number of finished rounds.
    pub iteration: usize,
    pub phase: PhaseView,
}

/// A turn made of what it carries and a phase.
spec fn joined(core: Core, phase: PhaseView) -> TurnView {
    TurnView {
        frame: core.frame@,
        transcript: views(core.transcript@),
        seen: views(core.seen@),
        iteration: core.iteration,
        phase,
    }
}

impl View for Turn {
    type V = TurnView;

    closed spec fn view(&self) -> TurnView {
        joined(self.core, self.phase@)
    }
}

// ---------------------------------------------------------------------------
// Transcripts
// ---------------------------------------------------------------------------

/// The message that an event adds to the transcript, if it adds one.
pub open spec fn message_of(event: RuntimeEventView) -> Option<TranscriptMessageView> {
    match event {
        RuntimeEventView::UserMessage { content } => Some(TranscriptMessageView::User { content }),
        RuntimeEventView::AssistantMessage { content, tool_calls, .. } => Some(
            TranscriptMessageView::Assistant { content, tool_calls },
        ),
        RuntimeEventView::ToolReceiptRecorded { receipt } => Some(
            TranscriptMessageView::Tool { receipt },
        ),
        _ => None,
    }
}

/// The transcript that a sequence of events amounts to.
pub open spec fn transcript_of(events: Seq<RuntimeEventView>) -> Seq<TranscriptMessageView>
    decreases events.len(),
{
    if events.len() == 0 {
        Seq::empty()
    } else {
        let rest = transcript_of(events.drop_last());
        match message_of(events.last()) {
            Some(message) => rest.push(message),
            None => rest,
        }
    }
}

/// The events without their envelopes.
pub open spec fn events_of(log: Seq<EventEnvelopeView>) -> Seq<RuntimeEventView> {
    log.map_values(|envelope: EventEnvelopeView| envelope.event)
}

/// Reconstructs the model transcript from the events of a thread.
pub fn transcript_from_events(events: &Vec<EventEnvelope>) -> (transcript: Vec<TranscriptMessage>)
    ensures
        views(transcript@) == transcript_of(events_of(views(events@))),
{
    let ghost all = events_of(views(events@));
    let mut transcript: Vec<TranscriptMessage> = Vec::new();
    let mut index: usize = 0;
    assert(all.take(0) =~= Seq::empty());
    assert(views(transcript@) =~= Seq::empty());
    while index < events.len()
        invariant
            index <= events@.len(),
            all == events_of(views(events@)),
            views(transcript@) == transcript_of(all.take(index as int)),
        decreases events@.len() - index,
    {
        proof {
            let grown = all.take(index as int + 1);
            assert(grown.drop_last() =~= all.take(index as int));
            assert(grown.last() == events@[index as int]@.event);
        }
        let message = match &events[index].event {
            RuntimeEvent::UserMessage { content } => Some(
                TranscriptMessage::User { content: content.clone() },
            ),
            RuntimeEvent::AssistantMessage { content, tool_calls, .. } => Some(
                TranscriptMessage::Assistant {
                    content: content.clone(),
                    tool_calls: snapshot_all(tool_calls),
                },
            ),
            RuntimeEvent::ToolReceiptRecorded { receipt } => Some(
                TranscriptMessage::Tool { receipt: receipt.clone() },
            ),
            _ => None,
        };
        match message {
            Some(found) => {
                proof {
                    lemma_views_push(transcript@, found);
                }
                transcript.push(found);
            },
            None => {},
        }
        index = index + 1;
    }
    assert(all.take(index as int) =~= all);
    transcript
}

// ---------------------------------------------------------------------------
// Answers of the model
// ---------------------------------------------------------------------------

/// The identifiers of calls.
pub open spec fn ids_of(calls: Seq<ToolCallView>) -> Seq<Seq<char>> {
    calls.map_values(|call: ToolCallView| call.id)
}

/// What is wrong with the tool calls of an answer: the first call with a blank
/// identifier, with a blank name, or whose identifier was used before in the turn.
pub open spec fn calls_fault(calls: Seq<ToolCallView>, seen: Seq<Seq<char>>) -> Option<Seq<char>>
    decreases calls.len(),
{
    if calls.len() == 0 {
        None
    } else {
        let call = calls[0];
        if blank(call.id) {
            Some("model returned a tool call with an empty id"@)
        } else if blank(call.name) {
            Some("tool call `"@ + call.id + "` has an empty tool name"@)
        } else if seen.contains(call.id) {
            Some("tool call id `"@ + call.id + "` was reused within the same turn"@)
        } else {
            calls_fault(calls.skip(1), seen.push(call.id))
        }
    }
}

/// Checks the tool calls of an answer against the identifiers seen in the turn.
pub fn validate_tool_calls(calls: &Vec<ToolCall>, previously_seen: &Vec<CallId>) -> (verdict: Result<
    (),
    String,
>)
    ensures
        match verdict {
            Ok(()) => calls_fault(views(calls@), views(previously_seen@)) is None,
            Err(reason) => calls_fault(views(calls@), views(previously_seen@)) == Some(reason@),
        },
{
    let ghost all = views(calls@);
    let mut seen: Vec<CallId> = snapshot_all(previously_seen);
    let mut index: usize = 0;
    assert(all.skip(0) =~= all);
    while index < calls.len()
        invariant
            index <= calls@.len(),
            all == views(calls@),
            calls_fault(all, views(previously_seen@)) == calls_fault(
                all.skip(index as int),
                views(seen@),
            ),
        decreases calls@.len() - index,
    {
        let call = &calls[index];
        proof {
            assert(all.skip(index as int)[0] == call@);
            assert(all.skip(index as int).skip(1) =~= all.skip(index as int + 1));
        }
        if is_blank(call.id.as_str()) {
            return Err("model returned a tool call with an empty id".to_owned());
        }
        if is_blank(call.name.as_str()) {
            return Err(
                "tool call `".to_owned().concat(call.id.as_str()).concat("` has an empty tool name"),
            );
        }
        if holds(&seen, &call.id) {
            return Err(
                "tool call id `".to_owned().concat(call.id.as_str()).concat(
                    "` was reused within the same turn",
                ),
            );
        }
        let id = call.id.clone();
        proof {
            lemma_views_push(seen@, id);
        }
        seen.push(id);
        index = index + 1;
    }
    Ok(())
}

/// What is wrong with how an answer ended. An answer either ends the turn and asks
/// for nothing, or stops for the tools that it asks for.
pub open spec fn stop_fault(stop_reason: StopReason, calls: nat) -> Option<Seq<char>> {
    match stop_reason {
        StopReason::EndTurn => if calls == 0 {
            None
        } else {
            Some("model ended the turn while requesting tools"@)
        },
        StopReason::ToolUse => if calls == 0 {
            Some("model stopped for tools without requesting any"@)
        } else {
            None
        },
        StopReason::MaxTokens => Some("model output was truncated at its token limit"@),
        StopReason::Other => Some("model stopped for an unsupported reason"@),
    }
}

fn check_stop(stop_reason: StopReason, calls: usize) -> (fault: Option<String>)
    ensures
        opt_view(fault) == stop_fault(stop_reason, calls as nat),
{
    match stop_reason {
        StopReason::EndTurn => if calls == 0 {
            None
        } else {
            Some("model ended the turn while requesting tools".to_owned())
        },
        StopReason::ToolUse => if calls == 0 {
            Some("model stopped for tools without requesting any".to_owned())
        } else {
            None
        },
        StopReason::MaxTokens => Some("model output was truncated at its token limit".to_owned()),
        StopReason::Other => Some("model stopped for an unsupported reason".to_owned()),
    }
}

// ---------------------------------------------------------------------------
// The next action
// ---------------------------------------------------------------------------

/// Where the turn stands, for hooks.
pub open spec fn hook_context_of(turn: TurnView) -> HookContextView {
    HookContextView {
        thread_id: turn.frame.thread_id,
        turn_id: turn.frame.turn_id,
        iteration: turn.iteration,
    }
}

/// The question put to whoever approves actions.
pub open spec fn approval_request_of(
    turn: TurnView,
    call: ToolCallView,
    prepared: PreparedToolCallView,
) -> ApprovalRequestView {
    ApprovalRequestView {
        thread_id: turn.frame.thread_id,
        turn_id: turn.frame.turn_id,
        call_id: call.id,
        action: prepared.action,
        reason: "effective tool policy requires approval"@,
    }
}

/// What the host has to do next.
pub open spec fn pending_action(turn: TurnView) -> ActionView {
    match turn.phase {
        PhaseView::Starting { .. } => ActionView::Persist(RuntimeEventView::TurnStarted),
        PhaseView::Greeting { input } => ActionView::Persist(
            RuntimeEventView::UserMessage { content: input },
        ),
        PhaseView::Loading => ActionView::LoadThread,
        PhaseView::Iterating => ActionView::PollCancellation,
        PhaseView::Compiling => ActionView::Compile(
            ContextInputView {
                thread_id: turn.frame.thread_id,
                turn_id: turn.frame.turn_id,
                transcript: turn.transcript,
            },
        ),
        PhaseView::CheckingContext { compiled } => ActionView::CheckModel {
            context: hook_context_of(turn),
            compiled,
        },
        PhaseView::RecordingContext { compiled } => ActionView::Persist(
            RuntimeEventView::ContextCompiled {
                iteration: turn.iteration,
                prompt_segments: compiled.prompt.len() as usize,
                message_count: compiled.messages.len() as usize,
                visible_tools: turn.frame.visible_names,
            },
        ),
        PhaseView::RecordingRequest { .. } => ActionView::Persist(
            RuntimeEventView::ModelRequestStarted { iteration: turn.iteration },
        ),
        PhaseView::Asking { compiled } => ActionView::AskModel(
            ModelRequestView {
                thread_id: turn.frame.thread_id,
                turn_id: turn.frame.turn_id,
                iteration: turn.iteration,
                context: compiled,
                tools: turn.frame.visible_tools,
            },
        ),
        PhaseView::Weighing { .. } => ActionView::PollCancellation,
        PhaseView::RecordingAnswer { response, .. } => ActionView::Persist(
            RuntimeEventView::AssistantMessage {
                content: response.content,
                tool_calls: response.tool_calls,
                stop_reason: response.stop_reason,
                usage: response.usage,
            },
        ),
        PhaseView::Completing { content } => ActionView::Persist(
            RuntimeEventView::TurnCompleted { content },
        ),
        PhaseView::Approaching { .. } => ActionView::PollCancellation,
        PhaseView::Preparing { calls, index } => ActionView::Prepare { call: calls[index as int] },
        PhaseView::RecordingPrepared { prepared, .. } => ActionView::Persist(
            RuntimeEventView::ToolPrepared { prepared },
        ),
        PhaseView::CheckingTool { prepared, .. } => ActionView::CheckTool {
            context: hook_context_of(turn),
            prepared,
        },
        PhaseView::RecordingRefusal { refusal, .. } => ActionView::Persist(
            RuntimeEventView::HookFailed {
                hook: refusal.hook,
                point: HookPoint::BeforeTool,
                reason: refusal.reason,
            },
        ),
        PhaseView::RecordingQuestion { calls, index, prepared } => ActionView::Persist(
            RuntimeEventView::ApprovalRequested {
                request: approval_request_of(turn, calls[index as int], prepared),
            },
        ),
        PhaseView::AwaitingApproval { calls, index, prepared } => ActionView::RequestApproval(
            approval_request_of(turn, calls[index as int], prepared),
        ),
        PhaseView::RecordingDecision { calls, index, decision, .. } => ActionView::Persist(
            RuntimeEventView::ApprovalResolved { call_id: calls[index as int].id, decision },
        ),
        PhaseView::RecordingStart { prepared, .. } => ActionView::Persist(
            RuntimeEventView::ToolExecutionStarted { prepared },
        ),
        PhaseView::Executing { prepared, .. } => ActionView::Execute(prepared),
        PhaseView::RecordingReceipt { receipt, .. } => ActionView::Persist(
            RuntimeEventView::ToolReceiptRecorded { receipt },
        ),
        PhaseView::CheckingReceipt { receipt, .. } => ActionView::CheckReceipt {
            context: hook_context_of(turn),
            receipt,
        },
        PhaseView::RecordingHookFailure { point, refusal } => ActionView::Persist(
            RuntimeEventView::HookFailed { hook: refusal.hook, point, reason: refusal.reason },
        ),
        PhaseView::Denying { calls, index, reason, .. } => ActionView::Persist(
            RuntimeEventView::ToolReceiptRecorded {
                receipt: denied_call(calls[index as int], reason),
            },
        ),
        PhaseView::Cancelling => ActionView::Persist(RuntimeEventView::TurnCancelled),
        PhaseView::Failing { reason, .. } => ActionView::Persist(
            RuntimeEventView::TurnFailed { error: reason },
        ),
        PhaseView::Finished { result } => ActionView::Finish(result),
    }
}

/// The receipt of a call that was closed without looking at it.
pub open spec fn denied_call(call: ToolCallView, reason: Seq<char>) -> ToolReceiptView {
    denied_receipt(call.id, call.name, None, reason)
}

/// Whether a reply answers an action.
pub open spec fn answers(action: ActionView, reply: ReplyView) -> bool {
    match action {
        ActionView::Persist(_) => reply is Persisted,
        ActionView::LoadThread => reply is Loaded,
        ActionView::PollCancellation => reply is Polled,
        ActionView::Compile(_) => reply is Compiled,
        ActionView::CheckModel { .. } => reply is Checked,
        ActionView::AskModel(_) => reply is Answered,
        ActionView::Prepare { .. } => reply is Prepared,
        ActionView::CheckTool { .. } => reply is Checked,
        ActionView::RequestApproval(_) => reply is Decided,
        ActionView::Execute(_) => reply is Executed,
        ActionView::CheckReceipt { .. } => reply is Checked,
        ActionView::Finish(_) => false,
    }
}

// ---------------------------------------------------------------------------
// What a reply leads to
// ---------------------------------------------------------------------------

/// The turn in another phase.
pub open spec fn at(turn: TurnView, phase: PhaseView) -> TurnView {
    TurnView { phase, ..turn }
}

/// The turn at its end.
pub open spec fn finished(
    turn: TurnView,
    result: Result<TurnOutcomeView, RuntimeErrorView>,
) -> TurnView {
    at(turn, PhaseView::Finished { result })
}

/// The turn with one more message.
pub open spec fn with_message(turn: TurnView, message: TranscriptMessageView) -> TurnView {
    TurnView { transcript: turn.transcript.push(message), ..turn }
}

/// The next round, unless the turn has had all its rounds.
pub open spec fn next_round(turn: TurnView) -> TurnView {
    if turn.iteration < turn.frame.max_model_iterations {
        at(turn, PhaseView::Iterating)
    } else {
        at(
            turn,
            PhaseView::Failing {
                reason: "maximum model iterations ("@ + decimal_of(
                    turn.frame.max_model_iterations as nat,
                ) + ") exceeded"@,
                error: RuntimeErrorView::MaxModelIterations {
                    turn_id: turn.frame.turn_id,
                    maximum: turn.frame.max_model_iterations,
                },
            },
        )
    }
}

/// The next call of an answer, or the next round behind its last call.
pub open spec fn next_call(turn: TurnView, calls: Seq<ToolCallView>, index: nat) -> TurnView {
    if index < calls.len() {
        at(turn, PhaseView::Approaching { calls, index })
    } else {
        next_round(TurnView { iteration: (turn.iteration + 1) as usize, ..turn })
    }
}

/// The phase of an ending once no call is open.
pub open spec fn ending_phase(ending: EndingView) -> PhaseView {
    match ending {
        EndingView::Cancel => PhaseView::Cancelling,
        EndingView::Fail { reason, error } => PhaseView::Failing { reason, error },
    }
}

/// Closes the calls from `index` on, then ends the turn.
pub open spec fn close_from(
    turn: TurnView,
    calls: Seq<ToolCallView>,
    index: nat,
    reason: Seq<char>,
    ending: EndingView,
) -> TurnView {
    if index < calls.len() {
        at(turn, PhaseView::Denying { calls, index, reason, ending })
    } else {
        at(turn, ending_phase(ending))
    }
}

/// Fails the turn because of an answer of the model.
pub open spec fn invalid_answer(turn: TurnView, reason: Seq<char>) -> EndingView {
    EndingView::Fail {
        reason,
        error: RuntimeErrorView::InvalidModelResponse { turn_id: turn.frame.turn_id, reason },
    }
}

/// What the model's answer leads to. Where the turn was cancelled meanwhile, a failed
/// request ends it as cancelled; an answer is recorded all the same.
pub open spec fn weigh(
    turn: TurnView,
    answer: Result<ModelResponseView, ModelErrorView>,
    cancelled: bool,
) -> TurnView {
    match answer {
        Err(error) => if cancelled {
            at(turn, PhaseView::Cancelling)
        } else {
            at(
                turn,
                PhaseView::Failing {
                    reason: model_error_text(error),
                    error: RuntimeErrorView::Model(error),
                },
            )
        },
        Ok(response) => match calls_fault(response.tool_calls, turn.seen) {
            Some(reason) => at(turn, ending_phase(invalid_answer(turn, reason))),
            None => at(
                TurnView { seen: turn.seen + ids_of(response.tool_calls), ..turn },
                PhaseView::RecordingAnswer { response, cancelled },
            ),
        },
    }
}

/// What a recorded answer leads to. A cancelled turn closes the calls of the answer and
/// completes with none.
pub open spec fn follow(
    turn: TurnView,
    response: ModelResponseView,
    cancelled: bool,
) -> TurnView {
    let told = with_message(
        turn,
        TranscriptMessageView::Assistant {
            content: response.content,
            tool_calls: response.tool_calls,
        },
    );
    if cancelled {
        close_from(
            told,
            response.tool_calls,
            0,
            "turn was cancelled before tool preparation"@,
            EndingView::Cancel,
        )
    } else {
        match stop_fault(response.stop_reason, response.tool_calls.len()) {
            Some(reason) => close_from(
                told,
                response.tool_calls,
                0,
                reason,
                invalid_answer(turn, reason),
            ),
            None => if response.tool_calls.len() == 0 {
                at(told, PhaseView::Completing { content: response.content })
            } else {
                next_call(told, response.tool_calls, 0)
            },
        }
    }
}

/// The turn about to record the receipt of its current call.
pub open spec fn receipted(
    turn: TurnView,
    calls: Seq<ToolCallView>,
    index: nat,
    receipt: ToolReceiptView,
    crossed: bool,
) -> TurnView {
    at(turn, PhaseView::RecordingReceipt { calls, index, receipt, crossed })
}

/// What a call leads to, the turn not being cancelled. A call of a tool that is not
/// registered or not granted is denied before it is prepared.
pub open spec fn approach(turn: TurnView, calls: Seq<ToolCallView>, index: nat) -> TurnView {
    let call = calls[index as int];
    if !turn.frame.registered.contains(call.name) {
        receipted(turn, calls, index, denied_call(call, "tool is not registered"@), false)
    } else if projected_access(turn.frame.capabilities, call.name) == Access::Deny {
        receipted(
            turn,
            calls,
            index,
            denied_call(call, "tool is denied by the effective capability projection"@),
            false,
        )
    } else {
        at(turn, PhaseView::Preparing { calls, index })
    }
}

/// What a preparation leads to.
pub open spec fn settle_preparation(
    turn: TurnView,
    calls: Seq<ToolCallView>,
    index: nat,
    prepared: Result<PreparedToolCallView, ToolErrorView>,
) -> TurnView {
    let call = calls[index as int];
    match prepared {
        Err(error) => receipted(
            turn,
            calls,
            index,
            malformed_receipt(call, tool_error_text(error)),
            false,
        ),
        Ok(prepared) => if prepared.call_id != call.id || prepared.action.tool_name != call.name {
            receipted(
                turn,
                calls,
                index,
                malformed_receipt(call, "tool preparation changed the call id or tool name"@),
                false,
            )
        } else {
            at(turn, PhaseView::RecordingPrepared { calls, index, prepared })
        },
    }
}

/// The reason for which a decision does not let an action through, if there is one.
pub open spec fn denial(
    decision: ApprovalDecisionView,
    action: CanonicalActionView,
) -> Option<Seq<char>> {
    match decision {
        ApprovalDecisionView::Approved { action: approved } => if equal_actions(approved, action) {
            None
        } else {
            Some("approval did not match the exact canonical action; execution was denied"@)
        },
        ApprovalDecisionView::Denied { reason } => Some(reason),
    }
}

/// The decision that an answer amounts to: no answer is a denial.
pub open spec fn decision_of(
    answer: Result<ApprovalDecisionView, Seq<char>>,
) -> ApprovalDecisionView {
    match answer {
        Ok(decision) => decision,
        Err(message) => ApprovalDecisionView::Denied { reason: approval_error_text(message) },
    }
}

/// The receipt of an execution.
pub open spec fn execution_receipt(
    prepared: PreparedToolCallView,
    outcome: Result<ToolOutputView, ToolErrorView>,
) -> ToolReceiptView {
    match outcome {
        Ok(output) => succeeded_receipt(prepared, output.value),
        Err(error) => ended_receipt(
            prepared,
            if error is OutcomeUnknown {
                ReceiptStatus::Unknown
            } else {
                ReceiptStatus::Failed
            },
            tool_error_text(error),
        ),
    }
}

/// What a durable event leads to.
pub open spec fn recorded(turn: TurnView) -> TurnView {
    match turn.phase {
        PhaseView::Starting { input } => at(turn, PhaseView::Greeting { input }),
        PhaseView::Greeting { .. } => at(turn, PhaseView::Loading),
        PhaseView::RecordingContext { compiled } => at(
            turn,
            PhaseView::RecordingRequest { compiled },
        ),
        PhaseView::RecordingRequest { compiled } => at(turn, PhaseView::Asking { compiled }),
        PhaseView::RecordingAnswer { response, cancelled } => follow(turn, response, cancelled),
        PhaseView::Completing { content } => finished(
            turn,
            Ok(
                TurnOutcomeView {
                    thread_id: turn.frame.thread_id,
                    turn_id: turn.frame.turn_id,
                    content,
                    model_iterations: (turn.iteration + 1) as usize,
                },
            ),
        ),
        PhaseView::RecordingPrepared { calls, index, prepared } => at(
            turn,
            PhaseView::CheckingTool { calls, index, prepared },
        ),
        PhaseView::RecordingRefusal { calls, index, prepared, refusal } => receipted(
            turn,
            calls,
            index,
            denied_receipt(
                calls[index as int].id,
                calls[index as int].name,
                Some(prepared.action),
                hook_error_text(refusal),
            ),
            false,
        ),
        PhaseView::RecordingQuestion { calls, index, prepared } => at(
            turn,
            PhaseView::AwaitingApproval { calls, index, prepared },
        ),
        PhaseView::RecordingDecision { calls, index, prepared, decision } => match denial(
            decision,
            prepared.action,
        ) {
            Some(reason) => receipted(
                turn,
                calls,
                index,
                denied_receipt(
                    calls[index as int].id,
                    calls[index as int].name,
                    Some(prepared.action),
                    reason,
                ),
                false,
            ),
            None => at(turn, PhaseView::RecordingStart { calls, index, prepared }),
        },
        PhaseView::RecordingStart { calls, index, prepared } => at(
            turn,
            PhaseView::Executing { calls, index, prepared },
        ),
        PhaseView::RecordingReceipt { calls, index, receipt, crossed } => {
            let told = with_message(turn, TranscriptMessageView::Tool { receipt });
            if crossed {
                at(told, PhaseView::CheckingReceipt { calls, index, receipt })
            } else {
                next_call(told, calls, index + 1)
            }
        },
        PhaseView::RecordingHookFailure { refusal, .. } => at(
            turn,
            PhaseView::Failing {
                reason: hook_error_text(refusal),
                error: RuntimeErrorView::Hook(refusal),
            },
        ),
        PhaseView::Denying { calls, index, reason, ending } => close_from(
            with_message(
                turn,
                TranscriptMessageView::Tool { receipt: denied_call(calls[index as int], reason) },
            ),
            calls,
            index + 1,
            reason,
            ending,
        ),
        PhaseView::Cancelling => finished(
            turn,
            Err(RuntimeErrorView::Cancelled(turn.frame.turn_id)),
        ),
        PhaseView::Failing { error, .. } => finished(turn, Err(error)),
        _ => turn,
    }
}

/// What an event that could not be made durable leads to. If it is the receipt of an
/// execution, the effect of that execution is unknown.
pub open spec fn unrecorded(turn: TurnView, error: StoreErrorView) -> TurnView {
    match turn.phase {
        PhaseView::RecordingReceipt { receipt, crossed, .. } => if crossed {
            finished(
                turn,
                Err(
                    RuntimeErrorView::ReceiptPersistenceUnknown {
                        call_id: receipt.call_id,
                        tool_name: receipt.tool_name,
                        source: error,
                    },
                ),
            )
        } else {
            finished(turn, Err(RuntimeErrorView::Store(error)))
        },
        _ => finished(turn, Err(RuntimeErrorView::Store(error))),
    }
}

/// What word on cancellation leads to. A cancelled turn closes its open calls, those of an
/// answer that has just come included, and does not complete.
pub open spec fn polled(turn: TurnView, cancelled: bool) -> TurnView {
    match turn.phase {
        PhaseView::Iterating => if cancelled {
            at(turn, PhaseView::Cancelling)
        } else {
            at(turn, PhaseView::Compiling)
        },
        PhaseView::Weighing { answer } => weigh(turn, answer, cancelled),
        PhaseView::Approaching { calls, index } => if cancelled {
            close_from(
                turn,
                calls,
                index,
                "turn was cancelled before tool preparation"@,
                EndingView::Cancel,
            )
        } else {
            approach(turn, calls, index)
        },
        _ => turn,
    }
}

/// What the verdict of the hooks leads to.
pub open spec fn checked(turn: TurnView, verdict: Result<(), HookErrorView>) -> TurnView {
    match turn.phase {
        PhaseView::CheckingContext { compiled } => match verdict {
            Ok(()) => at(turn, PhaseView::RecordingContext { compiled }),
            Err(error) => at(
                turn,
                PhaseView::RecordingHookFailure { point: HookPoint::BeforeModel, refusal: error },
            ),
        },
        PhaseView::CheckingTool { calls, index, prepared } => match verdict {
            Ok(()) => if projected_access(turn.frame.capabilities, calls[index as int].name)
                == Access::Ask {
                at(turn, PhaseView::RecordingQuestion { calls, index, prepared })
            } else {
                at(turn, PhaseView::RecordingStart { calls, index, prepared })
            },
            Err(refusal) => at(turn, PhaseView::RecordingRefusal { calls, index, prepared, refusal }),
        },
        PhaseView::CheckingReceipt { calls, index, .. } => match verdict {
            Ok(()) => next_call(turn, calls, index + 1),
            Err(error) => at(
                turn,
                PhaseView::RecordingHookFailure { point: HookPoint::AfterTool, refusal: error },
            ),
        },
        _ => turn,
    }
}

/// What a reply leads to.
pub open spec fn advanced(turn: TurnView, reply: ReplyView) -> TurnView {
    match reply {
        ReplyView::Persisted(Ok(())) => recorded(turn),
        ReplyView::Persisted(Err(error)) => unrecorded(turn, error),
        ReplyView::Loaded(Ok(events)) => next_round(
            TurnView { transcript: transcript_of(events_of(events)), ..turn },
        ),
        ReplyView::Loaded(Err(error)) => finished(turn, Err(RuntimeErrorView::Store(error))),
        ReplyView::Polled(cancelled) => polled(turn, cancelled),
        ReplyView::Compiled(Ok(compiled)) => at(turn, PhaseView::CheckingContext { compiled }),
        ReplyView::Compiled(Err(error)) => at(
            turn,
            PhaseView::Failing {
                reason: context_error_text(error),
                error: RuntimeErrorView::Context(error),
            },
        ),
        ReplyView::Checked(verdict) => checked(turn, verdict),
        ReplyView::Answered(answer) => at(turn, PhaseView::Weighing { answer }),
        ReplyView::Prepared(prepared) => match turn.phase {
            PhaseView::Preparing { calls, index } => settle_preparation(
                turn,
                calls,
                index,
                prepared,
            ),
            _ => turn,
        },
        ReplyView::Decided(answer) => match turn.phase {
            PhaseView::AwaitingApproval { calls, index, prepared } => at(
                turn,
                PhaseView::RecordingDecision {
                    calls,
                    index,
                    prepared,
                    decision: decision_of(answer),
                },
            ),
            _ => turn,
        },
        ReplyView::Executed(outcome) => match turn.phase {
            PhaseView::Executing { calls, index, prepared } => receipted(
                turn,
                calls,
                index,
                execution_receipt(prepared, outcome),
                true,
            ),
            _ => turn,
        },
    }
}

/// A turn before its first action.
pub open spec fn new_turn(frame: TurnFrameView, input: Seq<char>) -> TurnView {
    TurnView {
        frame,
        transcript: Seq::empty(),
        seen: Seq::empty(),
        iteration: 0,
        phase: PhaseView::Starting { input },
    }
}

/// Whether the turn is in a state that it can be in: the current call is one of the
/// calls of the answer, and there is a round left while one is going on.
pub open spec fn sound(turn: TurnView) -> bool {
    let going = turn.iteration < turn.frame.max_model_iterations;
    match turn.phase {
        PhaseView::Starting { .. } => turn.iteration == 0,
        PhaseView::Greeting { .. } => turn.iteration == 0,
        PhaseView::Loading => turn.iteration == 0,
        PhaseView::Approaching { calls, index } => going && index < calls.len(),
        PhaseView::Preparing { calls, index } => going && index < calls.len(),
        PhaseView::RecordingPrepared { calls, index, .. } => going && index < calls.len(),
        PhaseView::CheckingTool { calls, index, .. } => going && index < calls.len(),
        PhaseView::RecordingRefusal { calls, index, .. } => going && index < calls.len(),
        PhaseView::RecordingQuestion { calls, index, .. } => going && index < calls.len(),
        PhaseView::AwaitingApproval { calls, index, .. } => going && index < calls.len(),
        PhaseView::RecordingDecision { calls, index, .. } => going && index < calls.len(),
        PhaseView::RecordingStart { calls, index, .. } => going && index < calls.len(),
        PhaseView::Executing { calls, index, .. } => going && index < calls.len(),
        PhaseView::RecordingReceipt { calls, index, .. } => going && index < calls.len(),
        PhaseView::CheckingReceipt { calls, index, .. } => going && index < calls.len(),
        PhaseView::Denying { calls, index, .. } => index < calls.len(),
        PhaseView::RecordingHookFailure { .. } => true,
        PhaseView::Cancelling => true,
        PhaseView::Failing { .. } => true,
        PhaseView::Finished { .. } => true,
        _ => going,
    }
}

// ---------------------------------------------------------------------------
// Running a turn
// ---------------------------------------------------------------------------

impl Turn {
    #[verifier::type_invariant]
    spec fn valid(self) -> bool {
        sound(self@)
    }

    /// A turn before its first action.
    pub fn start(frame: TurnFrame, input: String) -> (turn: Self)
        ensures
            turn@ == new_turn(frame@, input@),
    {
        let turn = Turn {
            core: Core { frame, transcript: Vec::new(), seen: Vec::new(), iteration: 0 },
            phase: Phase::Starting { input },
        };
        proof {
            assert(views(turn.core.transcript@) =~= Seq::empty());
            assert(views(turn.core.seen@) =~= Seq::empty());
        }
        turn
    }

    fn hook_context(&self) -> (context: HookContext)
        ensures
            context@ == hook_context_of(self@),
    {
        HookContext {
            thread_id: self.core.frame.thread_id.clone(),
            turn_id: self.core.frame.turn_id.clone(),
            iteration: self.core.iteration,
        }
    }

    fn approval_request(&self, call: &ToolCall, prepared: &PreparedToolCall) -> (request:
        ApprovalRequest)
        ensures
            request@ == approval_request_of(self@, call@, prepared@),
    {
        ApprovalRequest {
            thread_id: self.core.frame.thread_id.clone(),
            turn_id: self.core.frame.turn_id.clone(),
            call_id: call.id.clone(),
            action: prepared.action.clone(),
            reason: "effective tool policy requires approval".to_owned(),
        }
    }

    /// What the host has to do next.
    pub fn pending(&self) -> (action: Action)
        ensures
            action@ == pending_action(self@),
    {
        proof {
            use_type_invariant(self);
        }
        match &self.phase {
            Phase::Starting { .. } => Action::Persist(RuntimeEvent::TurnStarted),
            Phase::Greeting { input } => Action::Persist(
                RuntimeEvent::UserMessage { content: input.clone() },
            ),
            Phase::Loading => Action::LoadThread,
            Phase::Iterating => Action::PollCancellation,
            Phase::Compiling => Action::Compile(
                ContextInput {
                    thread_id: self.core.frame.thread_id.clone(),
                    turn_id: self.core.frame.turn_id.clone(),
                    transcript: snapshot_all(&self.core.transcript),
                },
            ),
            Phase::CheckingContext { compiled } => Action::CheckModel {
                context: self.hook_context(),
                compiled: compiled.clone(),
            },
            Phase::RecordingContext { compiled } => Action::Persist(
                RuntimeEvent::ContextCompiled {
                    iteration: self.core.iteration,
                    prompt_segments: compiled.prompt.len(),
                    message_count: compiled.messages.len(),
                    visible_tools: snapshot_all(&self.core.frame.visible_names),
                },
            ),
            Phase::RecordingRequest { .. } => Action::Persist(
                RuntimeEvent::ModelRequestStarted { iteration: self.core.iteration },
            ),
            Phase::Asking { compiled } => Action::AskModel(
                ModelRequest {
                    thread_id: self.core.frame.thread_id.clone(),
                    turn_id: self.core.frame.turn_id.clone(),
                    iteration: self.core.iteration,
                    context: compiled.clone(),
                    tools: snapshot_all(&self.core.frame.visible_tools),
                },
            ),
            Phase::Weighing { .. } => Action::PollCancellation,
            Phase::RecordingAnswer { response, .. } => Action::Persist(
                RuntimeEvent::AssistantMessage {
                    content: response.content.clone(),
                    tool_calls: snapshot_all(&response.tool_calls),
                    stop_reason: response.stop_reason,
                    usage: response.usage,
                },
            ),
            Phase::Completing { content } => Action::Persist(
                RuntimeEvent::TurnCompleted { content: content.clone() },
            ),
            Phase::Approaching { .. } => Action::PollCancellation,
            Phase::Preparing { calls, index } => {
                assert(views(calls@)[*index as int] == calls@[*index as int]@);
                Action::Prepare { call: calls[*index].clone() }
            },
            Phase::RecordingPrepared { prepared, .. } => Action::Persist(
                RuntimeEvent::ToolPrepared { prepared: prepared.clone() },
            ),
            Phase::CheckingTool { prepared, .. } => Action::CheckTool {
                context: self.hook_context(),
                prepared: prepared.clone(),
            },
            Phase::RecordingRefusal { refusal, .. } => Action::Persist(
                RuntimeEvent::HookFailed {
                    hook: refusal.hook.clone(),
                    point: HookPoint::BeforeTool,
                    reason: refusal.reason.clone(),
                },
            ),
            Phase::RecordingQuestion { calls, index, prepared } => {
                assert(views(calls@)[*index as int] == calls@[*index as int]@);
                Action::Persist(
                    RuntimeEvent::ApprovalRequested {
                        request: self.approval_request(&calls[*index], prepared),
                    },
                )
            },
            Phase::AwaitingApproval { calls, index, prepared } => {
                assert(views(calls@)[*index as int] == calls@[*index as int]@);
                Action::RequestApproval(self.approval_request(&calls[*index], prepared))
            },
            Phase::RecordingDecision { calls, index, decision, .. } => {
                assert(views(calls@)[*index as int] == calls@[*index as int]@);
                Action::Persist(
                    RuntimeEvent::ApprovalResolved {
                        call_id: calls[*index].id.clone(),
                        decision: decision.clone(),
                    },
                )
            },
            Phase::RecordingStart { prepared, .. } => Action::Persist(
                RuntimeEvent::ToolExecutionStarted { prepared: prepared.clone() },
            ),
            Phase::Executing { prepared, .. } => Action::Execute(prepared.clone()),
            Phase::RecordingReceipt { receipt, .. } => Action::Persist(
                RuntimeEvent::ToolReceiptRecorded { receipt: receipt.clone() },
            ),
            Phase::CheckingReceipt { receipt, .. } => Action::CheckReceipt {
                context: self.hook_context(),
                receipt: receipt.clone(),
            },
            Phase::RecordingHookFailure { point, refusal } => Action::Persist(
                RuntimeEvent::HookFailed {
                    hook: refusal.hook.clone(),
                    point: *point,
                    reason: refusal.reason.clone(),
                },
            ),
            Phase::Denying { calls, index, reason, .. } => {
                assert(views(calls@)[*index as int] == calls@[*index as int]@);
                Action::Persist(
                    RuntimeEvent::ToolReceiptRecorded {
                        receipt: deny_call(&calls[*index], reason.clone()),
                    },
                )
            },
            Phase::Cancelling => Action::Persist(RuntimeEvent::TurnCancelled),
            Phase::Failing { reason, .. } => Action::Persist(
                RuntimeEvent::TurnFailed { error: reason.clone() },
            ),
            Phase::Finished { result } => match result {
                Ok(outcome) => Action::Finish(Ok(outcome.clone())),
                Err(error) => Action::Finish(Err(error.clone())),
            },
        }
    }

    /// Whether a reply answers the pending action.
    pub fn accepts(&self, reply: &Reply) -> (yes: bool)
        ensures
            yes == answers(pending_action(self@), reply@),
    {
        match self.pending() {
            Action::Persist(_) => matches!(reply, Reply::Persisted(_)),
            Action::LoadThread => matches!(reply, Reply::Loaded(_)),
            Action::PollCancellation => matches!(reply, Reply::Polled(_)),
            Action::Compile(_) => matches!(reply, Reply::Compiled(_)),
            Action::CheckModel { .. } => matches!(reply, Reply::Checked(_)),
            Action::AskModel(_) => matches!(reply, Reply::Answered(_)),
            Action::Prepare { .. } => matches!(reply, Reply::Prepared(_)),
            Action::CheckTool { .. } => matches!(reply, Reply::Checked(_)),
            Action::RequestApproval(_) => matches!(reply, Reply::Decided(_)),
            Action::Execute(_) => matches!(reply, Reply::Executed(_)),
            Action::CheckReceipt { .. } => matches!(reply, Reply::Checked(_)),
            Action::Finish(_) => false,
        }
    }

    /// Takes the reply to the pending action.
    pub fn advance(self, reply: Reply) -> (turn: Self)
        requires
            answers(pending_action(self@), reply@),
        ensures
            turn@ == advanced(self@, reply@),
    {
        proof {
            use_type_invariant(&self);
        }
        let Turn { core, phase } = self;
        match reply {
            Reply::Persisted(Ok(())) => after_recording(core, phase),
            Reply::Persisted(Err(error)) => after_store_failure(core, phase, error),
            Reply::Loaded(Ok(events)) => {
                let transcript = transcript_from_events(&events);
                next_round_of(Core { transcript, ..core })
            },
            Reply::Loaded(Err(error)) => finish(core, Err(RuntimeError::Store(error))),
            Reply::Polled(cancelled) => after_poll(core, phase, cancelled),
            Reply::Compiled(Ok(compiled)) => Turn { core, phase: Phase::CheckingContext { compiled } },
            Reply::Compiled(Err(error)) => {
                let reason = error.to_text();
                Turn { core, phase: Phase::Failing { reason, error: RuntimeError::Context(error) } }
            },
            Reply::Checked(verdict) => after_check(core, phase, verdict),
            Reply::Answered(answer) => Turn { core, phase: Phase::Weighing { answer } },
            Reply::Prepared(prepared) => match phase {
                Phase::Preparing { calls, index } => after_preparation(
                    core,
                    calls,
                    index,
                    prepared,
                ),
                phase => Turn { core, phase },
            },
            Reply::Decided(answer) => match phase {
                Phase::AwaitingApproval { calls, index, prepared } => {
                    let decision = match answer {
                        Ok(decision) => decision,
                        Err(error) => ApprovalDecision::Denied { reason: error.to_text() },
                    };
                    Turn {
                        core,
                        phase: Phase::RecordingDecision { calls, index, prepared, decision },
                    }
                },
                phase => Turn { core, phase },
            },
            Reply::Executed(outcome) => match phase {
                Phase::Executing { calls, index, prepared } => {
                    let receipt = match outcome {
                        Ok(output) => ToolReceipt::succeeded(prepared, output.value),
                        Err(error) => {
                            let message = error.to_text();
                            match error {
                                ToolError::OutcomeUnknown(_) => ToolReceipt::unknown(
                                    prepared,
                                    message,
                                ),
                                _ => ToolReceipt::failed(prepared, message),
                            }
                        },
                    };
                    Turn {
                        core,
                        phase: Phase::RecordingReceipt { calls, index, receipt, crossed: true },
                    }
                },
                phase => Turn { core, phase },
            },
        }
    }

    /// The result of a turn that has ended.
    pub fn result(&self) -> (result: Option<&Result<TurnOutcome, RuntimeError>>)
        ensures
            match result {
                Some(found) => self@.phase == (PhaseView::Finished { result: res_view(*found) }),
                None => !(self@.phase is Finished),
            },
    {
        match &self.phase {
            Phase::Finished { result } => Some(result),
            _ => None,
        }
    }
}

fn deny_call(call: &ToolCall, reason: String) -> (receipt: ToolReceipt)
    ensures
        receipt@ == denied_call(call@, reason@),
{
    ToolReceipt::denied(call.id.clone(), call.name.clone(), None, reason)
}

fn finish(core: Core, result: Result<TurnOutcome, RuntimeError>) -> (turn: Turn)
    ensures
        turn@ == joined(core, PhaseView::Finished { result: res_view(result) }),
{
    Turn { core, phase: Phase::Finished { result } }
}

fn with_message_of(core: Core, message: TranscriptMessage) -> (next: Core)
    ensures
        next.frame == core.frame,
        views(next.transcript@) == views(core.transcript@).push(message@),
        next.seen == core.seen,
        next.iteration == core.iteration,
{
    let mut transcript = core.transcript;
    proof {
        lemma_views_push(transcript@, message);
    }
    transcript.push(message);
    Core { transcript, ..core }
}

fn next_round_of(core: Core) -> (turn: Turn)
    ensures
        turn@ == next_round(joined(core, PhaseView::Loading)),
{
    if core.iteration < core.frame.max_model_iterations {
        return Turn { core, phase: Phase::Iterating };
    }
    let maximum: usize = core.frame.max_model_iterations;
    let turn_id = core.frame.turn_id.clone();
    let reason = "maximum model iterations (".to_owned().concat(
        decimal_usize(maximum).as_str(),
    ).concat(") exceeded");
    Turn {
        core,
        phase: Phase::Failing {
            reason,
            error: RuntimeError::MaxModelIterations { turn_id, maximum },
        },
    }
}

fn next_call_of(core: Core, calls: Vec<ToolCall>, index: usize) -> (turn: Turn)
    requires
        core.iteration < core.frame.max_model_iterations,
    ensures
        turn@ == next_call(joined(core, PhaseView::Loading), views(calls@), index as nat),
{
    assert(views(calls@).len() == calls@.len());
    if index < calls.len() {
        Turn { core, phase: Phase::Approaching { calls, index } }
    } else {
        next_round_of(Core { iteration: core.iteration + 1, ..core })
    }
}

fn close_calls_from(
    core: Core,
    calls: Vec<ToolCall>,
    index: usize,
    reason: String,
    ending: Ending,
) -> (turn: Turn)
    ensures
        turn@ == close_from(
            joined(core, PhaseView::Loading),
            views(calls@),
            index as nat,
            reason@,
            ending@,
        ),
{
    assert(views(calls@).len() == calls@.len());
    if index < calls.len() {
        return Turn { core, phase: Phase::Denying { calls, index, reason, ending } };
    }
    match ending {
        Ending::Cancel => Turn { core, phase: Phase::Cancelling },
        Ending::Fail { reason, error } => Turn { core, phase: Phase::Failing { reason, error } },
    }
}

fn weigh_answer(core: Core, answer: Result<ModelResponse, ModelError>, cancelled: bool) -> (turn:
    Turn)
    requires
        core.iteration < core.frame.max_model_iterations,
    ensures
        turn@ == weigh(joined(core, PhaseView::Loading), res_view(answer), cancelled),
{
    match answer {
        Err(error) => if cancelled {
            Turn { core, phase: Phase::Cancelling }
        } else {
            let reason = error.to_text();
            Turn { core, phase: Phase::Failing { reason, error: RuntimeError::Model(error) } }
        },
        Ok(response) => match validate_tool_calls(&response.tool_calls, &core.seen) {
            Err(reason) => {
                let turn_id = core.frame.turn_id.clone();
                Turn {
                    core,
                    phase: Phase::Failing {
                        reason: reason.clone(),
                        error: RuntimeError::InvalidModelResponse { turn_id, reason },
                    },
                }
            },
            Ok(()) => {
                let ghost before = views(core.seen@);
                let ghost calls = views(response.tool_calls@);
                let mut seen = core.seen;
                let mut index: usize = 0;
                assert(before + ids_of(calls.take(0)) =~= before);
                while index < response.tool_calls.len()
                    invariant
                        index <= response.tool_calls@.len(),
                        calls == views(response.tool_calls@),
                        views(seen@) == before + ids_of(calls.take(index as int)),
                    decreases response.tool_calls@.len() - index,
                {
                    let id = response.tool_calls[index].id.clone();
                    proof {
                        lemma_views_push(seen@, id);
                        assert(calls[index as int].id == id@);
                        assert(before + ids_of(calls.take(index as int + 1)) =~= (before + ids_of(
                            calls.take(index as int),
                        )).push(id@));
                    }
                    seen.push(id);
                    index = index + 1;
                }
                assert(calls.take(index as int) =~= calls);
                Turn {
                    core: Core { seen, ..core },
                    phase: Phase::RecordingAnswer { response, cancelled },
                }
            },
        },
    }
}

fn follow_answer(core: Core, response: ModelResponse, cancelled: bool) -> (turn: Turn)
    requires
        core.iteration < core.frame.max_model_iterations,
    ensures
        turn@ == follow(joined(core, PhaseView::Loading), response@, cancelled),
{
    assert(response@.tool_calls.len() == response.tool_calls@.len());
    let turn_id = core.frame.turn_id.clone();
    let told = with_message_of(
        core,
        TranscriptMessage::Assistant {
            content: response.content.clone(),
            tool_calls: snapshot_all(&response.tool_calls),
        },
    );
    if cancelled {
        return close_calls_from(
            told,
            response.tool_calls,
            0,
            "turn was cancelled before tool preparation".to_owned(),
            Ending::Cancel,
        );
    }
    match check_stop(response.stop_reason, response.tool_calls.len()) {
        Some(reason) => {
            let ending = Ending::Fail {
                reason: reason.clone(),
                error: RuntimeError::InvalidModelResponse { turn_id, reason: reason.clone() },
            };
            close_calls_from(told, response.tool_calls, 0, reason, ending)
        },
        None => if response.tool_calls.len() == 0 {
            Turn { core: told, phase: Phase::Completing { content: response.content } }
        } else {
            next_call_of(told, response.tool_calls, 0)
        },
    }
}

fn approach_call(core: Core, calls: Vec<ToolCall>, index: usize) -> (turn: Turn)
    requires
        core.iteration < core.frame.max_model_iterations,
        index < calls@.len(),
    ensures
        turn@ == approach(joined(core, PhaseView::Loading), views(calls@), index as nat),
{
    assert(views(calls@)[index as int] == calls@[index as int]@);
    let receipt = if !holds(&core.frame.registered, &calls[index].name) {
        deny_call(&calls[index], "tool is not registered".to_owned())
    } else if core.frame.capabilities.access(calls[index].name.as_str()) == Access::Deny {
        deny_call(
            &calls[index],
            "tool is denied by the effective capability projection".to_owned(),
        )
    } else {
        return Turn { core, phase: Phase::Preparing { calls, index } };
    };
    Turn { core, phase: Phase::RecordingReceipt { calls, index, receipt, crossed: false } }
}

fn after_preparation(
    core: Core,
    calls: Vec<ToolCall>,
    index: usize,
    prepared: Result<PreparedToolCall, ToolError>,
) -> (turn: Turn)
    requires
        core.iteration < core.frame.max_model_iterations,
        index < calls@.len(),
    ensures
        turn@ == settle_preparation(
            joined(core, PhaseView::Loading),
            views(calls@),
            index as nat,
            res_view(prepared),
        ),
{
    assert(views(calls@)[index as int] == calls@[index as int]@);
    let receipt = match prepared {
        Err(error) => ToolReceipt::malformed(&calls[index], error.to_text()),
        Ok(prepared) => {
            if prepared.call_id.same(&calls[index].id) && prepared.action.tool_name.same(
                &calls[index].name,
            ) {
                return Turn { core, phase: Phase::RecordingPrepared { calls, index, prepared } };
            }
            ToolReceipt::malformed(
                &calls[index],
                "tool preparation changed the call id or tool name".to_owned(),
            )
        },
    };
    Turn { core, phase: Phase::RecordingReceipt { calls, index, receipt, crossed: false } }
}

fn after_decision(
    core: Core,
    calls: Vec<ToolCall>,
    index: usize,
    prepared: PreparedToolCall,
    decision: ApprovalDecision,
) -> (turn: Turn)
    requires
        sound(
            joined(
                core,
                PhaseView::RecordingDecision {
                    calls: views(calls@),
                    index: index as nat,
                    prepared: prepared@,
                    decision: decision@,
                },
            ),
        ),
    ensures
        turn@ == recorded(
            joined(
                core,
                PhaseView::RecordingDecision {
                    calls: views(calls@),
                    index: index as nat,
                    prepared: prepared@,
                    decision: decision@,
                },
            ),
        ),
{
    assert(views(calls@)[index as int] == calls@[index as int]@);
    let reason = match decision {
        ApprovalDecision::Approved { action } => {
            if action.equals(&prepared.action) {
                return Turn { core, phase: Phase::RecordingStart { calls, index, prepared } };
            }
            "approval did not match the exact canonical action; execution was denied".to_owned()
        },
        ApprovalDecision::Denied { reason } => reason,
    };
    let receipt = ToolReceipt::denied(
        calls[index].id.clone(),
        calls[index].name.clone(),
        Some(prepared.action),
        reason,
    );
    Turn { core, phase: Phase::RecordingReceipt { calls, index, receipt, crossed: false } }
}

fn after_receipt(
    core: Core,
    calls: Vec<ToolCall>,
    index: usize,
    receipt: ToolReceipt,
    crossed: bool,
) -> (turn: Turn)
    requires
        core.iteration < core.frame.max_model_iterations,
        index < calls@.len(),
    ensures
        turn@ == recorded(
            joined(
                core,
                PhaseView::RecordingReceipt {
                    calls: views(calls@),
                    index: index as nat,
                    receipt: receipt@,
                    crossed,
                },
            ),
        ),
{
    assert(views(calls@).len() == calls.len());
    let told = with_message_of(core, TranscriptMessage::Tool { receipt: receipt.clone() });
    if crossed {
        Turn { core: told, phase: Phase::CheckingReceipt { calls, index, receipt } }
    } else {
        next_call_of(told, calls, index + 1)
    }
}

fn after_denial(
    core: Core,
    calls: Vec<ToolCall>,
    index: usize,
    reason: String,
    ending: Ending,
) -> (turn: Turn)
    requires
        index < calls@.len(),
    ensures
        turn@ == recorded(
            joined(
                core,
                PhaseView::Denying {
                    calls: views(calls@),
                    index: index as nat,
                    reason: reason@,
                    ending: ending@,
                },
            ),
        ),
{
    assert(views(calls@).len() == calls.len());
    assert(views(calls@)[index as int] == calls@[index as int]@);
    let receipt = deny_call(&calls[index], reason.clone());
    let told = with_message_of(core, TranscriptMessage::Tool { receipt });
    close_calls_from(told, calls, index + 1, reason, ending)
}

fn after_refusal(
    core: Core,
    calls: Vec<ToolCall>,
    index: usize,
    prepared: PreparedToolCall,
    refusal: HookError,
) -> (turn: Turn)
    requires
        core.iteration < core.frame.max_model_iterations,
        index < calls@.len(),
    ensures
        turn@ == recorded(
            joined(
                core,
                PhaseView::RecordingRefusal {
                    calls: views(calls@),
                    index: index as nat,
                    prepared: prepared@,
                    refusal: refusal@,
                },
            ),
        ),
{
    assert(views(calls@)[index as int] == calls@[index as int]@);
    let receipt = ToolReceipt::denied(
        calls[index].id.clone(),
        calls[index].name.clone(),
        Some(prepared.action),
        refusal.to_text(),
    );
    Turn { core, phase: Phase::RecordingReceipt { calls, index, receipt, crossed: false } }
}

fn after_recording(core: Core, phase: Phase) -> (turn: Turn)
    requires
        sound(joined(core, phase@)),
    ensures
        turn@ == recorded(joined(core, phase@)),
{
    match phase {
        Phase::Starting { input } => Turn { core, phase: Phase::Greeting { input } },
        Phase::Greeting { .. } => Turn { core, phase: Phase::Loading },
        Phase::RecordingContext { compiled } => Turn {
            core,
            phase: Phase::RecordingRequest { compiled },
        },
        Phase::RecordingRequest { compiled } => Turn { core, phase: Phase::Asking { compiled } },
        Phase::RecordingAnswer { response, cancelled } => follow_answer(core, response, cancelled),
        Phase::Completing { content } => {
            let outcome = TurnOutcome {
                thread_id: core.frame.thread_id.clone(),
                turn_id: core.frame.turn_id.clone(),
                content,
                model_iterations: core.iteration + 1,
            };
            finish(core, Ok(outcome))
        },
        Phase::RecordingPrepared { calls, index, prepared } => Turn {
            core,
            phase: Phase::CheckingTool { calls, index, prepared },
        },
        Phase::RecordingRefusal { calls, index, prepared, refusal } => {
            after_refusal(core, calls, index, prepared, refusal)
        },
        Phase::RecordingQuestion { calls, index, prepared } => Turn {
            core,
            phase: Phase::AwaitingApproval { calls, index, prepared },
        },
        Phase::RecordingDecision { calls, index, prepared, decision } => {
            after_decision(core, calls, index, prepared, decision)
        },
        Phase::RecordingStart { calls, index, prepared } => Turn {
            core,
            phase: Phase::Executing { calls, index, prepared },
        },
        Phase::RecordingReceipt { calls, index, receipt, crossed } => {
            after_receipt(core, calls, index, receipt, crossed)
        },
        Phase::RecordingHookFailure { refusal, .. } => {
            let reason = refusal.to_text();
            Turn { core, phase: Phase::Failing { reason, error: RuntimeError::Hook(refusal) } }
        },
        Phase::Denying { calls, index, reason, ending } => {
            after_denial(core, calls, index, reason, ending)
        },
        Phase::Cancelling => {
            let turn_id = core.frame.turn_id.clone();
            finish(core, Err(RuntimeError::Cancelled(turn_id)))
        },
        Phase::Failing { error, .. } => finish(core, Err(error)),
        phase => Turn { core, phase },
    }
}

fn after_store_failure(core: Core, phase: Phase, error: StoreError) -> (turn: Turn)
    ensures
        turn@ == unrecorded(joined(core, phase@), error@),
{
    match phase {
        Phase::RecordingReceipt { receipt, crossed, .. } => if crossed {
            finish(
                core,
                Err(
                    RuntimeError::ReceiptPersistenceUnknown {
                        call_id: receipt.call_id,
                        tool_name: receipt.tool_name,
                        source: error,
                    },
                ),
            )
        } else {
            finish(core, Err(RuntimeError::Store(error)))
        },
        _ => finish(core, Err(RuntimeError::Store(error))),
    }
}

fn after_poll(core: Core, phase: Phase, cancelled: bool) -> (turn: Turn)
    requires
        sound(joined(core, phase@)),
    ensures
        turn@ == polled(joined(core, phase@), cancelled),
{
    match phase {
        Phase::Iterating => if cancelled {
            Turn { core, phase: Phase::Cancelling }
        } else {
            Turn { core, phase: Phase::Compiling }
        },
        Phase::Weighing { answer } => weigh_answer(core, answer, cancelled),
        Phase::Approaching { calls, index } => if cancelled {
            close_calls_from(
                core,
                calls,
                index,
                "turn was cancelled before tool preparation".to_owned(),
                Ending::Cancel,
            )
        } else {
            assert(views(calls@).len() == calls@.len());
            approach_call(core, calls, index)
        },
        phase => Turn { core, phase },
    }
}

fn after_check(core: Core, phase: Phase, verdict: Result<(), HookError>) -> (turn: Turn)
    requires
        sound(joined(core, phase@)),
    ensures
        turn@ == checked(joined(core, phase@), done_view(verdict)),
{
    match phase {
        Phase::CheckingContext { compiled } => match verdict {
            Ok(()) => Turn { core, phase: Phase::RecordingContext { compiled } },
            Err(error) => Turn {
                core,
                phase: Phase::RecordingHookFailure {
                    point: HookPoint::BeforeModel,
                    refusal: error,
                },
            },
        },
        Phase::CheckingTool { calls, index, prepared } => match verdict {
            Ok(()) => {
                assert(views(calls@)[index as int] == calls@[index as int]@);
                if core.frame.capabilities.access(calls[index].name.as_str()) == Access::Ask {
                    Turn { core, phase: Phase::RecordingQuestion { calls, index, prepared } }
                } else {
                    Turn { core, phase: Phase::RecordingStart { calls, index, prepared } }
                }
            },
            Err(refusal) => Turn {
                core,
                phase: Phase::RecordingRefusal { calls, index, prepared, refusal },
            },
        },
        Phase::CheckingReceipt { calls, index, .. } => match verdict {
            Ok(()) => {
                assert(views(calls@).len() == calls.len());
                next_call_of(core, calls, index + 1)
            },
            Err(error) => Turn {
                core,
                phase: Phase::RecordingHookFailure { point: HookPoint::AfterTool, refusal: error },
            },
        },
        phase => Turn { core, phase },
    }
}

} // verus!
