//! Requests to the model, its answers, and the progress of a request.

use vstd::prelude::*;
use vstd::string::*;

use crate::datum::{same_all, same_opt_copy, snapshot_all, views, Datum};
use crate::context::{CompiledContext, CompiledContextView};
use crate::id::{ThreadId, TurnId};
use crate::protocol::{ToolCall, ToolCallView};
use crate::tool::{ToolDefinition, ToolDefinitionView};

verus! {

/// Diagnostic durations in milliseconds, not durable execution evidence.
/// DNS/TCP/TLS are phase durations. First-byte/first-text are elapsed from request
/// start; total uses a monotonic host clock. Missing measurements stay unknown.
#[derive(Debug, PartialEq, Eq)]
pub struct RequestTimings {
    pub dns_ms: Option<u64>,
    pub tcp_connect_ms: Option<u64>,
    pub tls_ms: Option<u64>,
    pub first_byte_ms: Option<u64>,
    pub first_text_ms: Option<u64>,
    pub total_ms: u64,
}

/// The model of [`RequestTimings`].
#[verifier::ext_equal]
pub ghost struct RequestTimingsView {
    pub dns_ms: Option<u64>,
    pub tcp_connect_ms: Option<u64>,
    pub tls_ms: Option<u64>,
    pub first_byte_ms: Option<u64>,
    pub first_text_ms: Option<u64>,
    pub total_ms: u64,
}

impl View for RequestTimings {
    type V = RequestTimingsView;

    open spec fn view(&self) -> RequestTimingsView {
        RequestTimingsView {
            dns_ms: self.dns_ms,
            tcp_connect_ms: self.tcp_connect_ms,
            tls_ms: self.tls_ms,
            first_byte_ms: self.first_byte_ms,
            first_text_ms: self.first_text_ms,
            total_ms: self.total_ms,
        }
    }
}

impl Datum for RequestTimings {
    fn snapshot(&self) -> (copy: Self) {
        RequestTimings {
            dns_ms: self.dns_ms,
            tcp_connect_ms: self.tcp_connect_ms,
            tls_ms: self.tls_ms,
            first_byte_ms: self.first_byte_ms,
            first_text_ms: self.first_text_ms,
            total_ms: self.total_ms,
        }
    }

    fn same(&self, other: &Self) -> (equal: bool) {
        same_opt_copy(self.dns_ms, other.dns_ms)
            && same_opt_copy(self.tcp_connect_ms, other.tcp_connect_ms)
            && same_opt_copy(self.tls_ms, other.tls_ms)
            && same_opt_copy(self.first_byte_ms, other.first_byte_ms)
            && same_opt_copy(self.first_text_ms, other.first_text_ms)
            && self.total_ms == other.total_ms
    }
}

impl Clone for RequestTimings {
    fn clone(&self) -> (copy: Self)
        ensures
            copy@ == self@,
    {
        self.snapshot()
    }
}

/// Progress of one model request.
#[derive(Debug, PartialEq, Eq)]
pub enum ModelProgress {
    Started,
    /// Unvalidated draft text only. Never contains executable tool fragments.
    TextDelta { text: String },
    /// A completed request is not a completed turn or accepted task.
    Finished { timings: RequestTimings, outcome: String },
}

/// The model of [`ModelProgress`].
#[verifier::ext_equal]
pub ghost enum ModelProgressView {
    Started,
    TextDelta { text: Seq<char> },
    Finished { timings: RequestTimingsView, outcome: Seq<char> },
}

impl View for ModelProgress {
    type V = ModelProgressView;

    open spec fn view(&self) -> ModelProgressView {
        match *self {
            ModelProgress::Started => ModelProgressView::Started,
            ModelProgress::TextDelta { text } => ModelProgressView::TextDelta { text: text@ },
            ModelProgress::Finished { timings, outcome } => ModelProgressView::Finished {
                timings: timings@,
                outcome: outcome@,
            },
        }
    }
}

impl Datum for ModelProgress {
    fn snapshot(&self) -> (copy: Self) {
        match self {
            ModelProgress::Started => ModelProgress::Started,
            ModelProgress::TextDelta { text } => ModelProgress::TextDelta { text: text.snapshot() },
            ModelProgress::Finished { timings, outcome } => ModelProgress::Finished {
                timings: timings.snapshot(),
                outcome: outcome.snapshot(),
            },
        }
    }

    fn same(&self, other: &Self) -> (equal: bool) {
        match (self, other) {
            (ModelProgress::Started, ModelProgress::Started) => true,
            (
                ModelProgress::TextDelta { text: text_a },
                ModelProgress::TextDelta { text: text_b },
            ) => text_a.same(text_b),
            (
                ModelProgress::Finished { timings: timings_a, outcome: outcome_a },
                ModelProgress::Finished { timings: timings_b, outcome: outcome_b },
            ) => timings_a.same(timings_b) && outcome_a.same(outcome_b),
            _ => false,
        }
    }
}

impl Clone for ModelProgress {
    fn clone(&self) -> (copy: Self)
        ensures
            copy@ == self@,
    {
        self.snapshot()
    }
}

/// Progress together with the request that it is about.
#[derive(Debug, PartialEq, Eq)]
pub struct ModelProgressEvent {
    pub thread_id: ThreadId,
    pub turn_id: TurnId,
    pub iteration: usize,
    pub progress: ModelProgress,
}

/// The model of [`ModelProgressEvent`].
#[verifier::ext_equal]
pub ghost struct ModelProgressEventView {
    pub thread_id: Seq<char>,
    pub turn_id: Seq<char>,
    pub iteration: usize,
    pub progress: ModelProgressView,
}

impl View for ModelProgressEvent {
    type V = ModelProgressEventView;

    open spec fn view(&self) -> ModelProgressEventView {
        ModelProgressEventView {
            thread_id: self.thread_id@,
            turn_id: self.turn_id@,
            iteration: self.iteration,
            progress: self.progress@,
        }
    }
}

impl Datum for ModelProgressEvent {
    fn snapshot(&self) -> (copy: Self) {
        ModelProgressEvent {
            thread_id: self.thread_id.snapshot(),
            turn_id: self.turn_id.snapshot(),
            iteration: self.iteration,
            progress: self.progress.snapshot(),
        }
    }

    fn same(&self, other: &Self) -> (equal: bool) {
        self.thread_id.same(&other.thread_id) && self.turn_id.same(&other.turn_id)
            && self.iteration == other.iteration && self.progress.same(&other.progress)
    }
}

impl Clone for ModelProgressEvent {
    fn clone(&self) -> (copy: Self)
        ensures
            copy@ == self@,
    {
        self.snapshot()
    }
}

/// One request to the model.
#[derive(Debug, PartialEq, Eq)]
pub struct ModelRequest {
    pub thread_id: ThreadId,
    pub turn_id: TurnId,
    pub iteration: usize,
    pub context: CompiledContext,
    /// This list is already projected through tool policy. Denied tools are not
    /// sent to the model at all.
    pub tools: Vec<ToolDefinition>,
}

/// The model of [`ModelRequest`].
#[verifier::ext_equal]
pub ghost struct ModelRequestView {
    pub thread_id: Seq<char>,
    pub turn_id: Seq<char>,
    pub iteration: usize,
    pub context: CompiledContextView,
    pub tools: Seq<ToolDefinitionView>,
}

impl View for ModelRequest {
    type V = ModelRequestView;

    open spec fn view(&self) -> ModelRequestView {
        ModelRequestView {
            thread_id: self.thread_id@,
            turn_id: self.turn_id@,
            iteration: self.iteration,
            context: self.context@,
            tools: views(self.tools@),
        }
    }
}

impl Datum for ModelRequest {
    fn snapshot(&self) -> (copy: Self) {
        ModelRequest {
            thread_id: self.thread_id.snapshot(),
            turn_id: self.turn_id.snapshot(),
            iteration: self.iteration,
            context: self.context.snapshot(),
            tools: snapshot_all(&self.tools),
        }
    }

    fn same(&self, other: &Self) -> (equal: bool) {
        self.thread_id.same(&other.thread_id) && self.turn_id.same(&other.turn_id)
            && self.iteration == other.iteration && self.context.same(&other.context)
            && same_all(&self.tools, &other.tools)
    }
}

impl Clone for ModelRequest {
    fn clone(&self) -> (copy: Self)
        ensures
            copy@ == self@,
    {
        self.snapshot()
    }
}

/// Why the model stopped.
#[derive(Clone, Copy, Debug, PartialEq, Eq, Structural)]
pub enum StopReason {
    EndTurn,
    ToolUse,
    MaxTokens,
    Other,
}

/// Tokens counted by the provider.
#[derive(Clone, Copy, Debug, PartialEq, Eq, Structural)]
pub struct TokenUsage {
    pub input_tokens: u64,
    pub output_tokens: u64,
}

impl Default for TokenUsage {
    fn default() -> (usage: Self)
        ensures
            usage == (TokenUsage { input_tokens: 0, output_tokens: 0 }),
    {
        TokenUsage { input_tokens: 0, output_tokens: 0 }
    }
}

/// One completed answer of the model.
#[derive(Debug, PartialEq, Eq)]
pub struct ModelResponse {
    pub content: String,
    pub tool_calls: Vec<ToolCall>,
    pub stop_reason: StopReason,
    pub usage: TokenUsage,
}

/// The model of [`ModelResponse`].
#[verifier::ext_equal]
pub ghost struct ModelResponseView {
    pub content: Seq<char>,
    pub tool_calls: Seq<ToolCallView>,
    pub stop_reason: StopReason,
    pub usage: TokenUsage,
}

impl View for ModelResponse {
    type V = ModelResponseView;

    open spec fn view(&self) -> ModelResponseView {
        ModelResponseView {
            content: self.content@,
            tool_calls: views(self.tool_calls@),
            stop_reason: self.stop_reason,
            usage: self.usage,
        }
    }
}

impl Datum for ModelResponse {
    fn snapshot(&self) -> (copy: Self) {
        ModelResponse {
            content: self.content.snapshot(),
            tool_calls: snapshot_all(&self.tool_calls),
            stop_reason: self.stop_reason,
            usage: self.usage,
        }
    }

    fn same(&self, other: &Self) -> (equal: bool) {
        self.content.same(&other.content) && same_all(&self.tool_calls, &other.tool_calls)
            && self.stop_reason == other.stop_reason && self.usage == other.usage
    }
}

impl Clone for ModelResponse {
    fn clone(&self) -> (copy: Self)
        ensures
            copy@ == self@,
    {
        self.snapshot()
    }
}

impl ModelResponse {
    /// A plain answer that ends the turn.
    pub fn text(content: String) -> (response: Self)
        ensures
            response@ == (ModelResponseView {
                content: content@,
                tool_calls: Seq::empty(),
                stop_reason: StopReason::EndTurn,
                usage: TokenUsage { input_tokens: 0, output_tokens: 0 },
            }),
    {
        let response = ModelResponse {
            content,
            tool_calls: Vec::new(),
            stop_reason: StopReason::EndTurn,
            usage: TokenUsage { input_tokens: 0, output_tokens: 0 },
        };
        assert(views(response.tool_calls@) =~= Seq::empty());
        response
    }

    /// An answer that asks for tools and says nothing.
    pub fn tool_calls(tool_calls: Vec<ToolCall>) -> (response: Self)
        ensures
            response@ == (ModelResponseView {
                content: Seq::empty(),
                tool_calls: views(tool_calls@),
                stop_reason: StopReason::ToolUse,
                usage: TokenUsage { input_tokens: 0, output_tokens: 0 },
            }),
    {
        let response = ModelResponse {
            content: String::new(),
            tool_calls,
            stop_reason: StopReason::ToolUse,
            usage: TokenUsage { input_tokens: 0, output_tokens: 0 },
        };
        assert(response.content@ =~= Seq::empty());
        response
    }
}

/// A model request that brought no answer.
#[derive(Debug, PartialEq, Eq)]
pub struct ModelError {
    pub message: String,
    pub retryable: bool,
}

/// The model of [`ModelError`].
#[verifier::ext_equal]
pub ghost struct ModelErrorView {
    pub message: Seq<char>,
    pub retryable: bool,
}

impl View for ModelError {
    type V = ModelErrorView;

    open spec fn view(&self) -> ModelErrorView {
        ModelErrorView {
            message: self.message@,
            retryable: self.retryable,
        }
    }
}

impl Datum for ModelError {
    fn snapshot(&self) -> (copy: Self) {
        ModelError {
            message: self.message.snapshot(),
            retryable: self.retryable,
        }
    }

    fn same(&self, other: &Self) -> (equal: bool) {
        self.message.same(&other.message) && self.retryable == other.retryable
    }
}

impl Clone for ModelError {
    fn clone(&self) -> (copy: Self)
        ensures
            copy@ == self@,
    {
        self.snapshot()
    }
}

/// The message of a failed model request.
pub open spec fn model_error_text(error: ModelErrorView) -> Seq<char> {
    "model request failed: "@ + error.message
}

impl ModelError {
    pub fn new(message: String, retryable: bool) -> (error: Self)
        ensures
            error@ == (ModelErrorView { message: message@, retryable }),
    {
        ModelError { message, retryable }
    }

    pub fn to_text(&self) -> (text: String)
        ensures
            text@ == model_error_text(self@),
    {
        "model request failed: ".to_owned().concat(self.message.as_str())
    }
}

/// Best-effort, non-durable diagnostics. Implementations should return promptly;
/// progress cannot grant authority or substitute for durable runtime events.
pub trait ModelProgressObserver {
    fn on_progress(&self, event: &ModelProgressEvent);
}

/// Progress of a request, as observers are told it.
pub open spec fn progress_of(
    request: ModelRequestView,
    progress: ModelProgressView,
) -> ModelProgressEventView {
    ModelProgressEventView {
        thread_id: request.thread_id,
        turn_id: request.turn_id,
        iteration: request.iteration,
        progress,
    }
}

/// Whether an observer was told of an event.
pub open spec fn told<O: ModelProgressObserver>(observer: O, event: ModelProgressEventView) -> bool {
    exists|given: ModelProgressEvent|
        given@ == event && #[trigger] call_ensures(O::on_progress, (&observer, &given), ())
}

/// Who is told of the progress of a request.
pub struct ModelControl<O: ModelProgressObserver> {
    pub observer: Option<O>,
}

impl<O: ModelProgressObserver + Clone> Clone for ModelControl<O> {
    fn clone(&self) -> (copy: Self)
        ensures
            match (self.observer, copy.observer) {
                (Some(observer), Some(other)) => cloned::<O>(observer, other),
                (None, None) => true,
                _ => false,
            },
    {
        match &self.observer {
            Some(observer) => ModelControl { observer: Some(observer.clone()) },
            None => ModelControl { observer: None },
        }
    }
}

impl<O: ModelProgressObserver> ModelControl<O> {
    /// Tells the observer, if there is one, of progress of the request.
    pub fn notify(&self, request: &ModelRequest, progress: ModelProgress)
        ensures
            self.observer matches Some(observer) ==> told(
                observer,
                progress_of(request@, progress@),
            ),
    {
        match &self.observer {
            Some(observer) => {
                let event = progress_event(request, progress);
                observer.on_progress(&event);
                assert(call_ensures(O::on_progress, (observer, &event), ()));
            },
            None => {},
        }
    }
}

/// Progress of a request, as observers are told it.
pub fn progress_event(request: &ModelRequest, progress: ModelProgress) -> (event: ModelProgressEvent)
    ensures
        event@ == progress_of(request@, progress@),
{
    ModelProgressEvent {
        thread_id: request.thread_id.clone(),
        turn_id: request.turn_id.clone(),
        iteration: request.iteration,
        progress,
    }
}

} // verus!
