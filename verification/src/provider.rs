//! Asking a provider that speaks the chat completions protocol.

use vstd::prelude::*;
use vstd::string::*;

use crate::datum::{
    done_view, lemma_views_push, list_view, opt_view, res_view, snapshot_opt, views, Datum,
};
use crate::context::{PromptSegment, PromptSegmentView};
use crate::id::CallId;
use crate::json::{
    bare_object, get_member, json_parse, json_text, json_view, lemma_array, lemma_object, member, no_members,
    object_view, parse, set_member, text_json, unset_member, with_member, Json, JsonView,
};
use crate::keyed::{keyed_view, snapshot_keyed, Keyed};
use crate::model::{
    ModelError, ModelErrorView, ModelRequest, ModelRequestView, ModelResponse, ModelResponseView,
    StopReason, TokenUsage,
};
use crate::protocol::{
    ToolCall, ToolCallView, TranscriptMessage, TranscriptMessageView,
};
use crate::text::{decimal, decimal_of, same_text};
use crate::tool::{ToolDefinition, ToolDefinitionView};
use crate::wire::{receipt_text, write_receipt};

verus! {

// ---------------------------------------------------------------------------
// Requests and responses
// ---------------------------------------------------------------------------

/// A request to the provider's endpoint.
#[derive(Debug, PartialEq, Eq)]
pub struct HttpRequest {
    pub url: String,
    pub headers: Keyed<String>,
    pub body: Json,
    pub timeout_seconds: u64,
}

/// The model of [`HttpRequest`].
#[verifier::ext_equal]
pub ghost struct HttpRequestView {
    pub url: Seq<char>,
    pub headers: Map<Seq<char>, Seq<char>>,
    pub body: JsonView,
    pub timeout_seconds: u64,
}

impl View for HttpRequest {
    type V = HttpRequestView;

    open spec fn view(&self) -> HttpRequestView {
        HttpRequestView {
            url: self.url@,
            headers: keyed_view(self.headers@),
            body: self.body@,
            timeout_seconds: self.timeout_seconds,
        }
    }
}

impl Clone for HttpRequest {
    fn clone(&self) -> (copy: Self)
        ensures
            copy@ == self@,
    {
        HttpRequest {
            url: self.url.clone(),
            headers: snapshot_keyed(&self.headers),
            body: self.body.clone(),
            timeout_seconds: self.timeout_seconds,
        }
    }
}

/// The answer of the provider's endpoint.
#[derive(Debug, PartialEq, Eq)]
pub struct HttpResponse {
    pub status: u16,
    pub body: Json,
}

/// The model of [`HttpResponse`].
#[verifier::ext_equal]
pub ghost struct HttpResponseView {
    pub status: u16,
    pub body: JsonView,
}

impl View for HttpResponse {
    type V = HttpResponseView;

    open spec fn view(&self) -> HttpResponseView {
        HttpResponseView {
            status: self.status,
            body: self.body@,
        }
    }
}

impl Datum for HttpResponse {
    fn snapshot(&self) -> (copy: Self) {
        HttpResponse {
            status: self.status,
            body: self.body.snapshot(),
        }
    }

    fn same(&self, other: &Self) -> (equal: bool) {
        self.status == other.status && self.body.same(&other.body)
    }
}

impl Clone for HttpResponse {
    fn clone(&self) -> (copy: Self)
        ensures
            copy@ == self@,
    {
        self.snapshot()
    }
}

/// Why there is no answer.
#[derive(Debug, PartialEq, Eq)]
pub enum TransportError {
    Io(String),
    Protocol(String),
    Http { status: u16, body: String },
}

/// The model of [`TransportError`].
#[verifier::ext_equal]
pub ghost enum TransportErrorView {
    Io(Seq<char>),
    Protocol(Seq<char>),
    Http { status: u16, body: Seq<char> },
}

impl View for TransportError {
    type V = TransportErrorView;

    open spec fn view(&self) -> TransportErrorView {
        match *self {
            TransportError::Io(x0) => TransportErrorView::Io(x0@),
            TransportError::Protocol(x0) => TransportErrorView::Protocol(x0@),
            TransportError::Http { status, body } => TransportErrorView::Http {
                status,
                body: body@,
            },
        }
    }
}

impl Datum for TransportError {
    fn snapshot(&self) -> (copy: Self) {
        match self {
            TransportError::Io(x0) => TransportError::Io(x0.snapshot()),
            TransportError::Protocol(x0) => TransportError::Protocol(x0.snapshot()),
            TransportError::Http { status, body } => TransportError::Http {
                status: *status,
                body: body.snapshot(),
            },
        }
    }

    fn same(&self, other: &Self) -> (equal: bool) {
        match (self, other) {
            (TransportError::Io(x0), TransportError::Io(y0)) => x0.same(y0),
            (TransportError::Protocol(x0), TransportError::Protocol(y0)) => x0.same(y0),
            (
                TransportError::Http { status: status_a, body: body_a },
                TransportError::Http { status: status_b, body: body_b },
            ) => *status_a == *status_b && body_a.same(body_b),
            _ => false,
        }
    }
}

impl Clone for TransportError {
    fn clone(&self) -> (copy: Self)
        ensures
            copy@ == self@,
    {
        self.snapshot()
    }
}

/// The message of a failure.
pub open spec fn transport_error_text(error: TransportErrorView) -> Seq<char> {
    match error {
        TransportErrorView::Io(detail) => "HTTP transport I/O error: "@ + detail,
        TransportErrorView::Protocol(detail) => "HTTP transport protocol error: "@ + detail,
        TransportErrorView::Http { status, body } => {
            "HTTP endpoint returned status "@ + decimal_of(status as nat) + ": "@ + body
        },
    }
}

impl TransportError {
    pub fn to_text(&self) -> (text: String)
        ensures
            text@ == transport_error_text(self@),
    {
        match self {
            TransportError::Io(detail) => {
                "HTTP transport I/O error: ".to_owned().concat(detail.as_str())
            },
            TransportError::Protocol(detail) => {
                "HTTP transport protocol error: ".to_owned().concat(detail.as_str())
            },
            TransportError::Http { status, body } => {
                "HTTP endpoint returned status ".to_owned().concat(
                    decimal(*status as u64).as_str(),
                ).concat(": ").concat(body.as_str())
            },
        }
    }
}

/// What sends requests.
pub trait HttpTransport {
    fn post_json(&self, request: HttpRequest) -> Result<HttpResponse, TransportError>;
}

/// Trusted model-specific accounting for the final provider request, including
/// message framing, tool schemas and any token-bearing extension fields.
/// Return an error if the model or a field cannot be counted reliably. There is
/// intentionally no universal characters-per-token default.
pub trait RequestTokenCounter {
    fn count_input_tokens(&self, body: &Json) -> Result<u64, ModelError>;
}

/// Whether a request was cancelled, as the host last saw it. A request is also abandoned
/// when nobody waits for its answer any more.
#[derive(Debug, Clone, Copy, PartialEq, Eq)]
pub struct HttpControl {
    pub cancelled: bool,
    pub abandoned: bool,
}

impl HttpControl {
    pub fn is_cancelled(&self) -> (yes: bool)
        ensures
            yes == (self.cancelled || self.abandoned),
    {
        self.cancelled || self.abandoned
    }

    /// Refuses to go on with a cancelled request.
    pub fn check(&self) -> (done: Result<(), TransportError>)
        ensures
            done_view(done) == (if self.cancelled || self.abandoned {
                Err(TransportErrorView::Io("request cancelled"@))
            } else {
                Ok(())
            }),
    {
        if self.is_cancelled() {
            Err(TransportError::Io("request cancelled".to_owned()))
        } else {
            Ok(())
        }
    }
}

/// Whether a request body asks for a stream.
pub open spec fn asks_for_stream(body: JsonView) -> bool {
    member(body, "stream"@) == Some(JsonView::Bool(true))
}

impl HttpRequest {
    /// Whether the request asks for a stream.
    pub fn is_streaming(&self) -> (yes: bool)
        ensures
            yes == asks_for_stream(self@.body),
    {
        match self.body.get("stream") {
            Some(Json::Bool(value)) => *value,
            _ => false,
        }
    }
}

/// Why a transport that cannot stream does not send a request, if it does not.
pub open spec fn plain_refusal(
    control: HttpControl,
    request: HttpRequestView,
) -> Option<TransportErrorView> {
    if control.cancelled || control.abandoned {
        Some(TransportErrorView::Io("request cancelled"@))
    } else if asks_for_stream(request.body) {
        Some(TransportErrorView::Protocol("transport does not support streaming"@))
    } else {
        None
    }
}

/// What becomes of an answer if the request may have been cancelled meanwhile.
pub open spec fn plain_answer(
    answer: Result<HttpResponseView, TransportErrorView>,
    control: HttpControl,
) -> Result<HttpResponseView, TransportErrorView> {
    match answer {
        Err(error) => Err(error),
        Ok(response) => if control.cancelled || control.abandoned {
            Err(TransportErrorView::Io("request cancelled"@))
        } else {
            Ok(response)
        },
    }
}

/// Whether a transport that cannot stream may send a request.
pub fn begin_plain_post(control: &HttpControl, request: &HttpRequest) -> (done: Result<
    (),
    TransportError,
>)
    ensures
        match done {
            Ok(()) => plain_refusal(*control, request@) is None,
            Err(error) => plain_refusal(*control, request@) == Some(error@),
        },
{
    match control.check() {
        Ok(()) => {},
        Err(error) => {
            return Err(error);
        },
    }
    if request.is_streaming() {
        return Err(TransportError::Protocol("transport does not support streaming".to_owned()));
    }
    Ok(())
}

/// Takes the answer of a transport that cannot stream. A request that was cancelled
/// meanwhile has none.
pub fn conclude_plain_post(
    control: &HttpControl,
    reply: Result<HttpResponse, TransportError>,
) -> (answer: Result<HttpResponse, TransportError>)
    ensures
        res_view(answer) == plain_answer(res_view(reply), *control),
{
    match reply {
        Err(error) => Err(error),
        Ok(response) => match control.check() {
            Ok(()) => Ok(response),
            Err(error) => Err(error),
        },
    }
}

/// Whether a transport that cannot stream was asked, and what it replied became this answer
/// when the host was asked about the request afterwards.
pub open spec fn posted_through<T: HttpTransport, C: Fn() -> HttpControl>(
    transport: T,
    request: HttpRequest,
    control: C,
    answer: Result<HttpResponseView, TransportErrorView>,
) -> bool {
    exists|reply: Result<HttpResponse, TransportError>, after: HttpControl| #[trigger]
        call_ensures(T::post_json, (&transport, request), reply) && #[trigger] call_ensures(
            control,
            (),
            after,
        ) && answer == plain_answer(res_view(reply), after)
}

/// Sends a request through a transport that cannot stream. `control` asks the host how it
/// sees the request, before the call and after it.
pub fn post_plainly<T: HttpTransport, C: Fn() -> HttpControl>(
    transport: &T,
    request: HttpRequest,
    control: &C,
) -> (answer: Result<HttpResponse, TransportError>)
    requires
        call_requires(*control, ()),
    ensures
        exists|before: HttpControl| #[trigger]
            call_ensures(*control, (), before) && match plain_refusal(before, request@) {
                Some(error) => res_view(answer) == Err::<HttpResponseView, TransportErrorView>(
                    error,
                ),
                None => posted_through(*transport, request, *control, res_view(answer)),
            },
{
    let before = control();
    assert(call_ensures(*control, (), before));
    match begin_plain_post(&before, &request) {
        Ok(()) => {},
        Err(error) => {
            return Err(error);
        },
    }
    let reply = transport.post_json(request);
    assert(call_ensures(T::post_json, (transport, request), reply));
    let after = control();
    assert(call_ensures(*control, (), after));
    let answer = conclude_plain_post(&after, reply);
    assert(posted_through(*transport, request, *control, res_view(answer)));
    answer
}

// ---------------------------------------------------------------------------
// Reading JSON
// ---------------------------------------------------------------------------

/// The number that a value holds, if it is an integer of 64 bits without sign.
pub open spec fn unsigned_of(value: JsonView) -> Option<u64> {
    match value {
        JsonView::Integer(number) => if 0 <= number <= u64::MAX {
            Some(number as u64)
        } else {
            None
        },
        _ => None,
    }
}

/// The number of a member.
pub open spec fn unsigned_member(value: JsonView, key: Seq<char>) -> Option<u64> {
    match member(value, key) {
        Some(found) => unsigned_of(found),
        None => None,
    }
}

/// The text of a member.
pub open spec fn text_member(value: JsonView, key: Seq<char>) -> Option<Seq<char>> {
    match member(value, key) {
        Some(JsonView::Text(text)) => Some(text),
        _ => None,
    }
}

pub(crate) fn get_text<'a>(value: &'a Json, key: &str) -> (text: Option<&'a String>)
    ensures
        match text {
            Some(found) => text_member(value@, key@) == Some(found@),
            None => text_member(value@, key@) is None,
        },
{
    match value.get(key) {
        Some(found) => found.as_text(),
        None => None,
    }
}

pub(crate) fn get_unsigned(value: &Json, key: &str) -> (number: Option<u64>)
    ensures
        number == unsigned_member(value@, key@),
{
    match value.get(key) {
        Some(found) => found.as_unsigned(),
        None => None,
    }
}

// ---------------------------------------------------------------------------
// Reading a response
// ---------------------------------------------------------------------------

/// A failure that a repetition would not mend.
pub open spec fn final_error(message: Seq<char>) -> ModelErrorView {
    ModelErrorView { message, retryable: false }
}

fn fail(message: &str) -> (error: ModelError)
    ensures
        error@ == final_error(message@),
{
    ModelError::new(message.to_owned(), false)
}

/// The text of a part of a message.
pub open spec fn part_text(part: JsonView) -> Option<Seq<char>> {
    match text_member(part, "text"@) {
        Some(text) => Some(text),
        None => match part {
            JsonView::Text(text) => Some(text),
            _ => None,
        },
    }
}

/// The texts of the parts of a message, one after the other. Parts without text count
/// nothing.
pub open spec fn parts_text(parts: Seq<JsonView>) -> Seq<char>
    decreases parts.len(),
{
    if parts.len() == 0 {
        Seq::empty()
    } else {
        parts_text(parts.drop_last()) + match part_text(parts.last()) {
            Some(text) => text,
            None => Seq::empty(),
        }
    }
}

/// The text of a message.
pub open spec fn content_of(content: Option<JsonView>) -> Seq<char> {
    match content {
        Some(JsonView::Text(text)) => text,
        Some(JsonView::Array(parts)) => parts_text(parts),
        _ => Seq::empty(),
    }
}

/// A tool call of a response, or why it is none. Arguments come as JSON text or as a
/// value.
pub open spec fn call_of(call: JsonView) -> Result<ToolCallView, ModelErrorView> {
    match text_member(call, "id"@) {
        None => Err(final_error("tool call has no id"@)),
        Some(id) => match member(call, "function"@) {
            None => Err(final_error("tool call has no function"@)),
            Some(function) => match text_member(function, "name"@) {
                None => Err(final_error("tool call has no function name"@)),
                Some(name) => match member(function, "arguments"@) {
                    Some(JsonView::Text(text)) => match json_parse(text) {
                        Ok(arguments) => Ok(ToolCallView { id, name, arguments }),
                        Err(message) => Err(
                            final_error(
                                "tool call `"@ + id + "` has invalid JSON arguments: "@ + message,
                            ),
                        ),
                    },
                    Some(arguments) => Ok(ToolCallView { id, name, arguments }),
                    None => Ok(ToolCallView { id, name, arguments: JsonView::Null }),
                },
            },
        },
    }
}

/// The first `count` tool calls of a response, or why one of them is none.
pub open spec fn calls_of(calls: Seq<JsonView>, count: int) -> Result<
    Seq<ToolCallView>,
    ModelErrorView,
>
    decreases count,
{
    if count <= 0 {
        Ok(Seq::empty())
    } else {
        match calls_of(calls, count - 1) {
            Err(error) => Err(error),
            Ok(earlier) => match call_of(calls[count - 1]) {
                Err(error) => Err(error),
                Ok(call) => Ok(earlier.push(call)),
            },
        }
    }
}

/// Why the model stopped.
pub open spec fn stop_reason_of(reason: Option<Seq<char>>) -> StopReason {
    if reason == Some("stop"@) {
        StopReason::EndTurn
    } else if reason == Some("tool_calls"@) || reason == Some("function_call"@) {
        StopReason::ToolUse
    } else if reason == Some("length"@) {
        StopReason::MaxTokens
    } else {
        StopReason::Other
    }
}

/// A number of tokens, or none.
pub open spec fn tokens_of(body: JsonView, key: Seq<char>) -> u64 {
    match member(body, "usage"@) {
        Some(usage) => match unsigned_member(usage, key) {
            Some(number) => number,
            None => 0,
        },
        None => 0,
    }
}

/// The response of the model in the body of an answer, or why there is none.
pub open spec fn response_of(body: JsonView) -> Result<ModelResponseView, ModelErrorView> {
    match member(body, "error"@) {
        Some(error) => Err(final_error("provider error: "@ + json_text(error))),
        None => match member(body, "choices"@) {
            Some(JsonView::Array(choices)) => if choices.len() == 0 {
                Err(final_error("response has no choices"@))
            } else {
                match member(choices[0], "message"@) {
                    None => Err(final_error("choice has no message"@)),
                    Some(message) => {
                        let calls = match member(message, "tool_calls"@) {
                            Some(JsonView::Array(calls)) => calls_of(calls, calls.len() as int),
                            _ => Ok(Seq::empty()),
                        };
                        match calls {
                            Err(error) => Err(error),
                            Ok(tool_calls) => Ok(
                                ModelResponseView {
                                    content: content_of(member(message, "content"@)),
                                    tool_calls,
                                    stop_reason: stop_reason_of(
                                        text_member(choices[0], "finish_reason"@),
                                    ),
                                    usage: TokenUsage {
                                        input_tokens: tokens_of(body, "prompt_tokens"@),
                                        output_tokens: tokens_of(body, "completion_tokens"@),
                                    },
                                },
                            ),
                        }
                    },
                }
            },
            _ => Err(final_error("response has no choices"@)),
        },
    }
}

fn parse_content(content: Option<&Json>) -> (text: String)
    ensures
        text@ == content_of(opt_view(content)),
{
    match content {
        Some(Json::Text(text)) => text.clone(),
        Some(Json::Array(parts)) => {
            proof {
                lemma_array(*parts);
            }
            let ghost all = views(parts@);
            let mut text = String::new();
            let mut index: usize = 0;
            assert(all.take(0) =~= Seq::empty());
            while index < parts.len()
                invariant
                    index <= parts@.len(),
                    all == views(parts@),
                    text@ == parts_text(all.take(index as int)),
                decreases parts@.len() - index,
            {
                proof {
                    let grown = all.take(index as int + 1);
                    assert(grown.drop_last() =~= all.take(index as int));
                    assert(grown.last() == parts@[index as int]@);
                }
                match get_text(&parts[index], "text") {
                    Some(part) => {
                        text.append(part.as_str());
                    },
                    None => {
                        match parts[index].as_text() {
                            Some(part) => {
                                text.append(part.as_str());
                            },
                            None => {
                                assert(text@ + Seq::<char>::empty() =~= text@);
                            },
                        }
                    },
                }
                index = index + 1;
            }
            assert(all.take(index as int) =~= all);
            text
        },
        _ => {
            let text = String::new();
            assert(text@ =~= Seq::<char>::empty());
            text
        },
    }
}

fn parse_call(call: &Json) -> (parsed: Result<ToolCall, ModelError>)
    ensures
        res_view(parsed) == call_of(call@),
{
    let id = match get_text(call, "id") {
        Some(id) => id,
        None => {
            return Err(fail("tool call has no id"));
        },
    };
    let function = match call.get("function") {
        Some(function) => function,
        None => {
            return Err(fail("tool call has no function"));
        },
    };
    let name = match get_text(function, "name") {
        Some(name) => name,
        None => {
            return Err(fail("tool call has no function name"));
        },
    };
    let arguments = match function.get("arguments") {
        Some(Json::Text(text)) => match parse(text.as_str()) {
            Ok(arguments) => arguments,
            Err(message) => {
                let text = "tool call `".to_owned().concat(id.as_str()).concat(
                    "` has invalid JSON arguments: ",
                ).concat(message.as_str());
                return Err(ModelError::new(text, false));
            },
        },
        Some(arguments) => arguments.clone(),
        None => Json::Null,
    };
    Ok(ToolCall::new(CallId::from_string(id.clone()), name.clone(), arguments))
}

fn parse_calls(calls: &Vec<Json>) -> (parsed: Result<Vec<ToolCall>, ModelError>)
    ensures
        list_view(parsed) == calls_of(views(calls@), calls@.len() as int),
{
    let ghost all = views(calls@);
    let mut parsed: Vec<ToolCall> = Vec::new();
    let mut index: usize = 0;
    assert(views(parsed@) =~= Seq::empty());
    while index < calls.len()
        invariant
            index <= calls@.len(),
            all == views(calls@),
            all.len() == calls@.len(),
            calls_of(all, index as int) == Ok::<Seq<ToolCallView>, ModelErrorView>(
                views(parsed@),
            ),
        decreases calls@.len() - index,
    {
        assert(all[index as int] == calls@[index as int]@);
        match parse_call(&calls[index]) {
            Ok(call) => {
                proof {
                    lemma_views_push(parsed@, call);
                }
                parsed.push(call);
            },
            Err(error) => {
                proof {
                    lemma_calls_fail(all, index as int + 1, all.len() as int);
                }
                return Err(error);
            },
        }
        index = index + 1;
    }
    Ok(parsed)
}

proof fn lemma_calls_fail(calls: Seq<JsonView>, failed: int, count: int)
    requires
        0 <= failed <= count,
        calls_of(calls, failed) is Err,
    ensures
        calls_of(calls, count) == calls_of(calls, failed),
    decreases count,
{
    if failed < count {
        lemma_calls_fail(calls, failed, count - 1);
    }
}

fn parse_stop_reason(reason: Option<&String>) -> (stop: StopReason)
    ensures
        stop == stop_reason_of(opt_view(reason)),
{
    proof {
        reveal_strlit("stop");
        reveal_strlit("tool_calls");
        reveal_strlit("function_call");
        reveal_strlit("length");
    }
    match reason {
        None => StopReason::Other,
        Some(reason) => if same_text(reason.as_str(), "stop") {
            StopReason::EndTurn
        } else if same_text(reason.as_str(), "tool_calls") || same_text(
            reason.as_str(),
            "function_call",
        ) {
            StopReason::ToolUse
        } else if same_text(reason.as_str(), "length") {
            StopReason::MaxTokens
        } else {
            StopReason::Other
        },
    }
}

fn count_tokens(body: &Json, key: &str) -> (tokens: u64)
    ensures
        tokens == tokens_of(body@, key@),
{
    match body.get("usage") {
        Some(usage) => match get_unsigned(usage, key) {
            Some(number) => number,
            None => 0,
        },
        None => 0,
    }
}

/// Reads the response of the model from the body of an answer.
pub fn parse_response(body: &Json) -> (response: Result<ModelResponse, ModelError>)
    ensures
        res_view(response) == response_of(body@),
{
    match body.get("error") {
        Some(error) => {
            let message = "provider error: ".to_owned().concat(error.to_text().as_str());
            return Err(ModelError::new(message, false));
        },
        None => {},
    }
    let choices = match body.get("choices") {
        Some(choices) => match choices.as_array() {
            Some(choices) => choices,
            None => {
                return Err(fail("response has no choices"));
            },
        },
        None => {
            return Err(fail("response has no choices"));
        },
    };
    if choices.len() == 0 {
        return Err(fail("response has no choices"));
    }
    let choice = &choices[0];
    assert(views(choices@)[0] == choice@);
    let message = match choice.get("message") {
        Some(message) => message,
        None => {
            return Err(fail("choice has no message"));
        },
    };
    let content = parse_content(message.get("content"));
    let mut tool_calls: Vec<ToolCall> = Vec::new();
    assert(views(tool_calls@) =~= Seq::empty());
    match message.get("tool_calls") {
        Some(calls) => {
            match calls.as_array() {
                Some(calls) => {
                    match parse_calls(calls) {
                        Ok(parsed) => {
                            tool_calls = parsed;
                        },
                        Err(error) => {
                            return Err(error);
                        },
                    }
                },
                None => {},
            }
        },
        None => {},
    }
    let stop_reason = parse_stop_reason(get_text(choice, "finish_reason"));
    let input_tokens: u64 = count_tokens(body, "prompt_tokens");
    let output_tokens: u64 = count_tokens(body, "completion_tokens");
    Ok(
        ModelResponse {
            content,
            tool_calls,
            stop_reason,
            usage: TokenUsage { input_tokens, output_tokens },
        },
    )
}

// ---------------------------------------------------------------------------
// Writing a request
// ---------------------------------------------------------------------------

/// Where and how the provider is asked.
#[derive(Debug)]
pub struct OpenAiConfig {
    pub endpoint: String,
    pub model: String,
    pub api_key: Option<String>,
    pub organization: Option<String>,
    pub timeout_seconds: u64,
    pub extra_body: Keyed<Json>,
}

/// The model of [`OpenAiConfig`].
#[verifier::ext_equal]
pub ghost struct OpenAiConfigView {
    pub endpoint: Seq<char>,
    pub model: Seq<char>,
    pub api_key: Option<Seq<char>>,
    pub organization: Option<Seq<char>>,
    pub timeout_seconds: u64,
    pub extra_body: Map<Seq<char>, JsonView>,
}

impl View for OpenAiConfig {
    type V = OpenAiConfigView;

    open spec fn view(&self) -> OpenAiConfigView {
        OpenAiConfigView {
            endpoint: self.endpoint@,
            model: self.model@,
            api_key: opt_view(self.api_key),
            organization: opt_view(self.organization),
            timeout_seconds: self.timeout_seconds,
            extra_body: object_view(self.extra_body),
        }
    }
}

impl Clone for OpenAiConfig {
    fn clone(&self) -> (copy: Self)
        ensures
            copy@ == self@,
    {
        let extra_body = snapshot_keyed(&self.extra_body);
        proof {
            lemma_object(extra_body);
            lemma_object(self.extra_body);
            assert(object_view(extra_body) =~= object_view(self.extra_body)) by {
                assert(object_view(extra_body) =~= keyed_view(extra_body@));
                assert(object_view(self.extra_body) =~= keyed_view(self.extra_body@));
            }
        }
        OpenAiConfig {
            endpoint: self.endpoint.clone(),
            model: self.model.clone(),
            api_key: snapshot_opt(&self.api_key),
            organization: snapshot_opt(&self.organization),
            timeout_seconds: self.timeout_seconds,
            extra_body,
        }
    }
}

impl OpenAiConfig {
    pub fn new(endpoint: String, model: String) -> (config: Self)
        ensures
            config@ == (OpenAiConfigView {
                endpoint: endpoint@,
                model: model@,
                api_key: None,
                organization: None,
                timeout_seconds: 120,
                extra_body: Map::empty(),
            }),
    {
        OpenAiConfig {
            endpoint,
            model,
            api_key: None,
            organization: None,
            timeout_seconds: 120,
            extra_body: no_members(),
        }
    }
}

/// Input and reserved output must fit this model's context window. This is a
/// per-request limit, not a cumulative task spending budget.
#[derive(Debug, Clone, Copy, PartialEq, Eq)]
pub struct RequestBudget {
    pub context_window_tokens: u64,
    pub reserved_output_tokens: u64,
}

/// Whether a budget leaves room for input and output.
pub open spec fn usable_budget(budget: RequestBudget) -> bool {
    0 < budget.reserved_output_tokens < budget.context_window_tokens
}

/// Asks a provider that speaks the chat completions protocol.
#[derive(Debug)]
pub struct OpenAiCompatibleAdapter {
    streaming: bool,
    config: OpenAiConfig,
    request_budget: Option<RequestBudget>,
}

/// The model of [`OpenAiCompatibleAdapter`].
#[verifier::ext_equal]
pub ghost struct AdapterView {
    pub streaming: bool,
    pub config: OpenAiConfigView,
    pub request_budget: Option<RequestBudget>,
}

impl View for OpenAiCompatibleAdapter {
    type V = AdapterView;

    closed spec fn view(&self) -> AdapterView {
        AdapterView {
            streaming: self.streaming,
            config: self.config@,
            request_budget: self.request_budget,
        }
    }
}

impl Clone for OpenAiCompatibleAdapter {
    fn clone(&self) -> (copy: Self)
        ensures
            copy@ == self@,
    {
        proof {
            use_type_invariant(self);
        }
        OpenAiCompatibleAdapter {
            streaming: self.streaming,
            config: self.config.clone(),
            request_budget: self.request_budget,
        }
    }
}

/// An object with two members.
pub open spec fn pair_object(
    first: Seq<char>,
    a: JsonView,
    second: Seq<char>,
    b: JsonView,
) -> JsonView {
    JsonView::Object(bare_object().insert(first, a).insert(second, b))
}

/// An object with three members.
pub open spec fn triple_object(
    first: Seq<char>,
    a: JsonView,
    second: Seq<char>,
    b: JsonView,
    third: Seq<char>,
    c: JsonView,
) -> JsonView {
    JsonView::Object(bare_object().insert(first, a).insert(second, b).insert(third, c))
}

pub(crate) fn make_pair(first: &str, a: Json, second: &str, b: Json) -> (json: Json)
    ensures
        json@ == pair_object(first@, a@, second@, b@),
{
    Json::Object(with_member(with_member(no_members(), first, a), second, b))
}

pub(crate) fn make_triple(
    first: &str,
    a: Json,
    second: &str,
    b: Json,
    third: &str,
    c: Json,
) -> (json: Json)
    ensures
        json@ == triple_object(first@, a@, second@, b@, third@, c@),
{
    Json::Object(
        with_member(with_member(with_member(no_members(), first, a), second, b), third, c),
    )
}

/// A prompt segment as a message.
pub open spec fn system_message(segment: PromptSegmentView) -> JsonView {
    pair_object(
        "role"@,
        JsonView::Text("system"@),
        "content"@,
        JsonView::Text("["@ + segment.name + "]\n"@ + segment.text),
    )
}

/// A function call of an earlier message. Its arguments are sent as text.
pub open spec fn sent_call(call: ToolCallView) -> JsonView {
    triple_object(
        "id"@,
        JsonView::Text(call.id),
        "type"@,
        JsonView::Text("function"@),
        "function"@,
        pair_object(
            "name"@,
            JsonView::Text(call.name),
            "arguments"@,
            JsonView::Text(json_text(call.arguments)),
        ),
    )
}

/// The function calls of an earlier message.
pub open spec fn sent_calls(calls: Seq<ToolCallView>) -> Seq<JsonView> {
    calls.map_values(|call: ToolCallView| sent_call(call))
}

/// A message of the conversation.
pub open spec fn sent_message(message: TranscriptMessageView) -> JsonView {
    match message {
        TranscriptMessageView::User { content } => pair_object(
            "role"@,
            JsonView::Text("user"@),
            "content"@,
            JsonView::Text(content),
        ),
        TranscriptMessageView::Assistant { content, tool_calls } => if tool_calls.len() == 0 {
            pair_object(
                "role"@,
                JsonView::Text("assistant"@),
                "content"@,
                JsonView::Text(content),
            )
        } else {
            triple_object(
                "role"@,
                JsonView::Text("assistant"@),
                "content"@,
                JsonView::Text(content),
                "tool_calls"@,
                JsonView::Array(sent_calls(tool_calls)),
            )
        },
        TranscriptMessageView::Tool { receipt } => triple_object(
            "role"@,
            JsonView::Text("tool"@),
            "tool_call_id"@,
            JsonView::Text(receipt.call_id),
            "content"@,
            JsonView::Text(receipt_text(receipt)),
        ),
    }
}

/// A tool that the model may call.
pub open spec fn sent_tool(tool: ToolDefinitionView) -> JsonView {
    pair_object(
        "type"@,
        JsonView::Text("function"@),
        "function"@,
        triple_object(
            "name"@,
            JsonView::Text(tool.name),
            "description"@,
            JsonView::Text(tool.description),
            "parameters"@,
            tool.input_schema,
        ),
    )
}

/// The tools that the model may call.
pub open spec fn sent_tools(tools: Seq<ToolDefinitionView>) -> Seq<JsonView> {
    tools.map_values(|tool: ToolDefinitionView| sent_tool(tool))
}

/// The messages of a request: the prompt, then the conversation.
pub open spec fn sent_messages(request: ModelRequestView) -> Seq<JsonView> {
    request.context.prompt.map_values(|segment: PromptSegmentView| system_message(segment))
        + request.context.messages.map_values(
        |message: TranscriptMessageView| sent_message(message),
    )
}

/// The extensions of a request without those that could restore schemas removed by
/// policy.
pub open spec fn allowed_extensions(
    extra_body: Map<Seq<char>, JsonView>,
    without_tools: bool,
) -> Map<Seq<char>, JsonView> {
    let kept = extra_body.remove("tools"@).remove("functions"@).remove("function_call"@);
    if without_tools {
        kept.remove("tool_choice"@)
    } else {
        kept
    }
}

/// The body of a request.
pub open spec fn body_of(config: OpenAiConfigView, request: ModelRequestView) -> Map<
    Seq<char>,
    JsonView,
> {
    let base = allowed_extensions(config.extra_body, request.tools.len() == 0).insert(
        "model"@,
        JsonView::Text(config.model),
    ).insert("messages"@, JsonView::Array(sent_messages(request)));
    if request.tools.len() == 0 {
        base
    } else {
        base.insert("tools"@, JsonView::Array(sent_tools(request.tools)))
    }
}

/// The body of a request that is streamed or not. Extensions have no say in it.
pub open spec fn framed_body(adapter: AdapterView, request: ModelRequestView) -> Map<
    Seq<char>,
    JsonView,
> {
    let plain = body_of(adapter.config, request).remove("stream"@).remove("stream_options"@);
    if adapter.streaming {
        plain.insert("stream"@, JsonView::Bool(true)).insert(
            "stream_options"@,
            JsonView::Object(bare_object().insert("include_usage"@, JsonView::Bool(true))),
        )
    } else {
        plain
    }
}

/// The body with an output cap within the reservation, or why its own cap is refused.
pub open spec fn capped_body(
    budget: RequestBudget,
    body: Map<Seq<char>, JsonView>,
) -> Result<Map<Seq<char>, JsonView>, ModelErrorView> {
    let modern = body.contains_key("max_completion_tokens"@);
    let legacy = body.contains_key("max_tokens"@);
    if modern && legacy {
        Err(final_error("request budget rejects conflicting output token caps"@))
    } else if modern || legacy {
        let cap = if modern {
            body["max_completion_tokens"@]
        } else {
            body["max_tokens"@]
        };
        match unsigned_of(cap) {
            Some(value) => if 0 < value <= budget.reserved_output_tokens {
                Ok(body)
            } else {
                Err(final_error("output token cap must be positive and within the reservation"@))
            },
            None => Err(
                final_error("output token cap must be positive and within the reservation"@),
            ),
        }
    } else {
        Ok(
            body.insert(
                "max_completion_tokens"@,
                JsonView::Integer(budget.reserved_output_tokens as int),
            ),
        )
    }
}

/// Whether the counted input of a request fits the budget. A failed count is final: the
/// request is neither sent nor tried again.
pub open spec fn admitted(budget: RequestBudget, counted: Result<u64, ModelErrorView>) -> Result<
    (),
    ModelErrorView,
> {
    match counted {
        Err(error) => Err(final_error(error.message)),
        Ok(input) => {
            let maximum = (budget.context_window_tokens - budget.reserved_output_tokens) as nat;
            if input as nat > maximum {
                Err(
                    final_error(
                        "final request exceeds input token budget ("@ + decimal_of(input as nat)
                            + " > "@ + decimal_of(maximum)
                            + "); compact context or reduce tool schemas"@,
                    ),
                )
            } else {
                Ok(())
            }
        },
    }
}

/// The headers of a request.
pub open spec fn headers_of(config: OpenAiConfigView) -> Map<Seq<char>, Seq<char>> {
    let base = Map::<Seq<char>, Seq<char>>::empty().insert(
        "Content-Type"@,
        "application/json"@,
    );
    let authorized = match config.api_key {
        Some(api_key) => base.insert("Authorization"@, "Bearer "@ + api_key),
        None => base,
    };
    match config.organization {
        Some(organization) => authorized.insert("OpenAI-Organization"@, organization),
        None => authorized,
    }
}

/// The request that is sent.
pub open spec fn http_request_of(
    config: OpenAiConfigView,
    body: Map<Seq<char>, JsonView>,
) -> HttpRequestView {
    HttpRequestView {
        url: config.endpoint,
        headers: headers_of(config),
        body: JsonView::Object(body),
        timeout_seconds: config.timeout_seconds,
    }
}

/// What the model answered, given the answer of the endpoint. A failed transport may be
/// tried again.
pub open spec fn completed(answer: Result<HttpResponseView, TransportErrorView>) -> Result<
    ModelResponseView,
    ModelErrorView,
> {
    match answer {
        Err(error) => Err(
            ModelErrorView { message: transport_error_text(error), retryable: true },
        ),
        Ok(response) => response_of(response.body),
    }
}

fn make_system_message(segment: &PromptSegment) -> (json: Json)
    ensures
        json@ == system_message(segment@),
{
    let content = "[".to_owned().concat(segment.name.as_str()).concat("]\n").concat(
        segment.text.as_str(),
    );
    make_pair("role", text_json("system"), "content", Json::Text(content))
}

fn make_call(call: &ToolCall) -> (json: Json)
    ensures
        json@ == sent_call(call@),
{
    let function = make_pair(
        "name",
        text_json(call.name.as_str()),
        "arguments",
        Json::Text(call.arguments.to_text()),
    );
    make_triple(
        "id",
        text_json(call.id.as_str()),
        "type",
        text_json("function"),
        "function",
        function,
    )
}

fn make_calls(calls: &Vec<ToolCall>) -> (json: Vec<Json>)
    ensures
        views(json@) == sent_calls(views(calls@)),
{
    let ghost wanted = sent_calls(views(calls@));
    let mut json: Vec<Json> = Vec::new();
    let mut index: usize = 0;
    assert(views(json@) =~= wanted.take(0));
    while index < calls.len()
        invariant
            index <= calls@.len(),
            wanted == sent_calls(views(calls@)),
            wanted.len() == calls@.len(),
            views(json@) == wanted.take(index as int),
        decreases calls@.len() - index,
    {
        let call = make_call(&calls[index]);
        proof {
            assert(wanted.take(index as int + 1) =~= wanted.take(index as int).push(call@));
            lemma_views_push(json@, call);
        }
        json.push(call);
        index = index + 1;
    }
    assert(wanted.take(index as int) =~= wanted);
    json
}

fn make_message(message: &TranscriptMessage) -> (json: Json)
    ensures
        json@ == sent_message(message@),
{
    match message {
        TranscriptMessage::User { content } => make_pair(
            "role",
            text_json("user"),
            "content",
            text_json(content.as_str()),
        ),
        TranscriptMessage::Assistant { content, tool_calls } => {
            let calls = make_calls(tool_calls);
            assert(views(calls@).len() == views(tool_calls@).len());
            if calls.len() == 0 {
                make_pair("role", text_json("assistant"), "content", text_json(content.as_str()))
            } else {
                proof {
                    lemma_array(calls);
                }
                make_triple(
                    "role",
                    text_json("assistant"),
                    "content",
                    text_json(content.as_str()),
                    "tool_calls",
                    Json::Array(calls),
                )
            }
        },
        TranscriptMessage::Tool { receipt } => make_triple(
            "role",
            text_json("tool"),
            "tool_call_id",
            text_json(receipt.call_id.as_str()),
            "content",
            Json::Text(write_receipt(receipt)),
        ),
    }
}

fn make_tool(tool: &ToolDefinition) -> (json: Json)
    ensures
        json@ == sent_tool(tool@),
{
    let function = make_triple(
        "name",
        text_json(tool.name.as_str()),
        "description",
        text_json(tool.description.as_str()),
        "parameters",
        tool.input_schema.clone(),
    );
    make_pair("type", text_json("function"), "function", function)
}

fn make_tools(tools: &Vec<ToolDefinition>) -> (json: Vec<Json>)
    ensures
        views(json@) == sent_tools(views(tools@)),
{
    let ghost wanted = sent_tools(views(tools@));
    let mut json: Vec<Json> = Vec::new();
    let mut index: usize = 0;
    assert(views(json@) =~= wanted.take(0));
    while index < tools.len()
        invariant
            index <= tools@.len(),
            wanted == sent_tools(views(tools@)),
            wanted.len() == tools@.len(),
            views(json@) == wanted.take(index as int),
        decreases tools@.len() - index,
    {
        let tool = make_tool(&tools[index]);
        proof {
            assert(wanted.take(index as int + 1) =~= wanted.take(index as int).push(tool@));
            lemma_views_push(json@, tool);
        }
        json.push(tool);
        index = index + 1;
    }
    assert(wanted.take(index as int) =~= wanted);
    json
}

fn make_messages(request: &ModelRequest) -> (json: Vec<Json>)
    ensures
        views(json@) == sent_messages(request@),
{
    let ghost wanted = sent_messages(request@);
    let prompt = &request.context.prompt;
    let messages = &request.context.messages;
    let mut json: Vec<Json> = Vec::new();
    let mut index: usize = 0;
    assert(views(json@) =~= wanted.take(0));
    while index < prompt.len()
        invariant
            index <= prompt@.len(),
            *prompt == request.context.prompt,
            wanted == sent_messages(request@),
            wanted.len() == prompt@.len() + request.context.messages@.len(),
            views(json@) == wanted.take(index as int),
        decreases prompt@.len() - index,
    {
        let message = make_system_message(&prompt[index]);
        proof {
            assert(wanted[index as int] == message@);
            assert(wanted.take(index as int + 1) =~= wanted.take(index as int).push(message@));
            lemma_views_push(json@, message);
        }
        json.push(message);
        index = index + 1;
    }
    let mut second: usize = 0;
    while second < messages.len()
        invariant
            second <= messages@.len(),
            *prompt == request.context.prompt,
            *messages == request.context.messages,
            wanted == sent_messages(request@),
            wanted.len() == prompt@.len() + messages@.len(),
            views(json@) == wanted.take(prompt@.len() + second),
        decreases messages@.len() - second,
    {
        let message = make_message(&messages[second]);
        proof {
            let at = prompt@.len() + second;
            assert(wanted[at] == message@);
            assert(wanted.take(at + 1) =~= wanted.take(at).push(message@));
            lemma_views_push(json@, message);
        }
        json.push(message);
        second = second + 1;
    }
    assert(wanted.take(prompt@.len() + second) =~= wanted);
    json
}

/// Whether a completion went this way: a refused body is the answer; otherwise the input
/// is counted where there is a budget, the request is sent, and the endpoint's answer is
/// read.
pub open spec fn completes<T: HttpTransport, C: RequestTokenCounter>(
    adapter: AdapterView,
    transport: &T,
    counter: &C,
    request: ModelRequestView,
    result: Result<ModelResponseView, ModelErrorView>,
) -> bool {
    let body = framed_body(adapter, request);
    match adapter.request_budget {
        None => sends(adapter.config, transport, body, result),
        Some(budget) => match capped_body(budget, body) {
            Err(error) => result == Err::<ModelResponseView, ModelErrorView>(error),
            Ok(final_body) => weighs(
                adapter.config,
                budget,
                transport,
                counter,
                final_body,
                result,
            ),
        },
    }
}

/// Whether this is the result for a body under a budget, for some count of its tokens.
pub open spec fn weighs<T: HttpTransport, C: RequestTokenCounter>(
    config: OpenAiConfigView,
    budget: RequestBudget,
    transport: &T,
    counter: &C,
    body: Map<Seq<char>, JsonView>,
    result: Result<ModelResponseView, ModelErrorView>,
) -> bool {
    exists|counted: Result<u64, ModelError>| #[trigger]
        counts(counter, body, counted) && proceeds(
            config,
            budget,
            counted_view(counted),
            transport,
            body,
            result,
        )
}

/// Whether this is the result for a counted input: the refusal, or what became of the
/// request.
pub open spec fn proceeds<T: HttpTransport>(
    config: OpenAiConfigView,
    budget: RequestBudget,
    counted: Result<u64, ModelErrorView>,
    transport: &T,
    body: Map<Seq<char>, JsonView>,
    result: Result<ModelResponseView, ModelErrorView>,
) -> bool {
    match admitted(budget, counted) {
        Err(error) => result == Err::<ModelResponseView, ModelErrorView>(error),
        Ok(()) => sends(config, transport, body, result),
    }
}

/// The view of a count.
pub open spec fn counted_view(counted: Result<u64, ModelError>) -> Result<u64, ModelErrorView> {
    match counted {
        Ok(tokens) => Ok(tokens),
        Err(error) => Err(error@),
    }
}

/// Whether a counter may have counted a body so.
pub open spec fn counts<C: RequestTokenCounter>(
    counter: &C,
    body: Map<Seq<char>, JsonView>,
    counted: Result<u64, ModelError>,
) -> bool {
    exists|json: Json|
        json@ == JsonView::Object(body) && #[trigger] call_ensures(
            C::count_input_tokens,
            (counter, &json),
            counted,
        )
}

/// Whether a transport may have answered a body so that this is the result.
pub open spec fn sends<T: HttpTransport>(
    config: OpenAiConfigView,
    transport: &T,
    body: Map<Seq<char>, JsonView>,
    result: Result<ModelResponseView, ModelErrorView>,
) -> bool {
    exists|sent: HttpRequest, answer: Result<HttpResponse, TransportError>|
        sent@ == http_request_of(config, body) && #[trigger] call_ensures(
            T::post_json,
            (transport, sent),
            answer,
        ) && result == completed(res_view(answer))
}

impl OpenAiCompatibleAdapter {
    #[verifier::type_invariant]
    spec fn funded(self) -> bool {
        self.request_budget matches Some(budget) ==> usable_budget(budget)
    }

    pub fn new(config: OpenAiConfig) -> (adapter: Self)
        ensures
            adapter@ == (AdapterView { streaming: false, config: config@, request_budget: None }),
    {
        OpenAiCompatibleAdapter { config, request_budget: None, streaming: false }
    }

    /// Stream text previews; tool arguments are exposed only in a complete response.
    pub fn with_streaming(self, enabled: bool) -> (adapter: Self)
        ensures
            adapter@ == (AdapterView { streaming: enabled, ..self@ }),
    {
        proof {
            use_type_invariant(&self);
        }
        OpenAiCompatibleAdapter { streaming: enabled, ..self }
    }

    /// Install accounting for the exact body sent to the transport. Existing
    /// output caps may be smaller than the reservation, but never exceed it.
    pub fn with_request_budget(self, budget: RequestBudget) -> (adapter: Result<Self, ModelError>)
        ensures
            match adapter {
                Ok(found) => usable_budget(budget) && found@ == (AdapterView {
                    request_budget: Some(budget),
                    ..self@
                }),
                Err(error) => !usable_budget(budget) && error@ == final_error(
                    "request budget needs positive input capacity and output reservation"@,
                ),
            },
    {
        if budget.reserved_output_tokens == 0 || budget.reserved_output_tokens
            >= budget.context_window_tokens {
            return Err(
                fail("request budget needs positive input capacity and output reservation"),
            );
        }
        Ok(OpenAiCompatibleAdapter { request_budget: Some(budget), ..self })
    }

    /// The body of a request to the provider.
    pub fn request_body(&self, request: &ModelRequest) -> (body: Keyed<Json>)
        ensures
            object_view(body) == body_of(self@.config, request@),
    {
        let messages = make_messages(request);
        let tools = make_tools(&request.tools);
        assert(views(tools@).len() == request@.tools.len());
        let mut body = copy_members(&self.config.extra_body);
        unset_member(&mut body, "tools");
        unset_member(&mut body, "functions");
        unset_member(&mut body, "function_call");
        if tools.len() == 0 {
            unset_member(&mut body, "tool_choice");
        }
        set_member(&mut body, "model", text_json(self.config.model.as_str()));
        proof {
            lemma_array(messages);
        }
        set_member(&mut body, "messages", Json::Array(messages));
        if tools.len() > 0 {
            proof {
                lemma_array(tools);
            }
            set_member(&mut body, "tools", Json::Array(tools));
        }
        body
    }

    /// The body of a request, streamed or not.
    fn frame(&self, request: &ModelRequest) -> (body: Keyed<Json>)
        ensures
            object_view(body) == framed_body(self@, request@),
    {
        let mut body = self.request_body(request);
        unset_member(&mut body, "stream");
        unset_member(&mut body, "stream_options");
        if self.streaming {
            set_member(&mut body, "stream", Json::Bool(true));
            set_member(
                &mut body,
                "stream_options",
                Json::Object(with_member(no_members(), "include_usage", Json::Bool(true))),
            );
        }
        body
    }

    /// The body of the final request, before its input is counted.
    pub fn final_body(&self, request: &ModelRequest) -> (body: Result<Keyed<Json>, ModelError>)
        ensures
            ({
                let framed = framed_body(self@, request@);
                let wanted = match self@.request_budget {
                    Some(budget) => capped_body(budget, framed),
                    None => Ok(framed),
                };
                match body {
                    Ok(found) => wanted == Ok::<Map<Seq<char>, JsonView>, ModelErrorView>(
                        object_view(found),
                    ),
                    Err(error) => wanted == Err::<Map<Seq<char>, JsonView>, ModelErrorView>(
                        error@,
                    ),
                }
            }),
    {
        let mut body = self.frame(request);
        let budget = match self.request_budget {
            Some(budget) => budget,
            None => {
                return Ok(body);
            },
        };
        let mut capped: bool = false;
        {
            let modern = get_member(&body, "max_completion_tokens");
            let legacy = get_member(&body, "max_tokens");
            if modern.is_some() && legacy.is_some() {
                return Err(fail("request budget rejects conflicting output token caps"));
            }
            let cap = match modern {
                Some(cap) => Some(cap),
                None => legacy,
            };
            match cap {
                Some(cap) => {
                    let fits = match cap.as_unsigned() {
                        Some(value) => value > 0 && value <= budget.reserved_output_tokens,
                        None => false,
                    };
                    if !fits {
                        return Err(
                            fail("output token cap must be positive and within the reservation"),
                        );
                    }
                    capped = true;
                },
                None => {},
            }
        }
        if !capped {
            set_member(
                &mut body,
                "max_completion_tokens",
                Json::Unsigned(budget.reserved_output_tokens),
            );
        }
        Ok(body)
    }

    /// Judges a counted input by the budget.
    pub fn judge_count(&self, budget: RequestBudget, counted: Result<u64, ModelError>) -> (done: Result<
        (),
        ModelError,
    >)
        requires
            budget.reserved_output_tokens <= budget.context_window_tokens,
        ensures
            done_view(done) == admitted(budget, counted_view(counted)),
    {
        let input = match counted {
            Ok(input) => input,
            Err(error) => {
                return Err(ModelError::new(error.message, false));
            },
        };
        let maximum: u64 = budget.context_window_tokens - budget.reserved_output_tokens;
        if input > maximum {
            let message = "final request exceeds input token budget (".to_owned().concat(
                decimal(input).as_str(),
            ).concat(" > ").concat(decimal(maximum).as_str()).concat(
                "); compact context or reduce tool schemas",
            );
            return Err(ModelError::new(message, false));
        }
        Ok(())
    }

    /// The request that carries a body.
    pub fn http_request(&self, body: Keyed<Json>) -> (request: HttpRequest)
        ensures
            request@ == http_request_of(self@.config, object_view(body)),
    {
        let mut headers: Keyed<String> = Keyed::new();
        let ghost mut wanted = Map::<Seq<char>, Seq<char>>::empty();
        assert(keyed_view(headers@) =~= wanted);
        add_header(&mut headers, "Content-Type", "application/json".to_owned());
        match &self.config.api_key {
            Some(api_key) => {
                add_header(
                    &mut headers,
                    "Authorization",
                    "Bearer ".to_owned().concat(api_key.as_str()),
                );
            },
            None => {},
        }
        match &self.config.organization {
            Some(organization) => {
                add_header(&mut headers, "OpenAI-Organization", organization.clone());
            },
            None => {},
        }
        HttpRequest {
            url: self.config.endpoint.clone(),
            headers,
            body: Json::Object(body),
            timeout_seconds: self.config.timeout_seconds,
        }
    }

    /// Reads the answer of the endpoint.
    pub fn conclude(&self, answer: Result<HttpResponse, TransportError>) -> (response: Result<
        ModelResponse,
        ModelError,
    >)
        ensures
            res_view(response) == completed(res_view(answer)),
    {
        match answer {
            Err(error) => Err(ModelError::new(error.to_text(), true)),
            Ok(response) => parse_response(&response.body),
        }
    }

    /// Asks the provider, and waits for its answer.
    pub fn complete_blocking<T: HttpTransport, C: RequestTokenCounter>(
        &self,
        request: &ModelRequest,
        transport: &T,
        counter: &C,
    ) -> (response: Result<ModelResponse, ModelError>)
        ensures
            completes(self@, transport, counter, request@, res_view(response)),
    {
        proof {
            use_type_invariant(self);
        }
        let body = match self.final_body(request) {
            Ok(body) => body,
            Err(error) => {
                return Err(error);
            },
        };
        let ghost final_body = object_view(body);
        let budget = match self.request_budget {
            Some(budget) => budget,
            None => {
                return self.send(transport, body);
            },
        };
        let json = Json::Object(body);
        let counted = counter.count_input_tokens(&json);
        let ghost seen = counted;
        assert(call_ensures(C::count_input_tokens, (counter, &json), counted));
        let response = match self.judge_count(budget, counted) {
            Err(error) => Err(error),
            Ok(()) => match json {
                Json::Object(body) => self.send(transport, body),
                _ => self.send(transport, no_members()),
            },
        };
        assert(counts(counter, final_body, seen));
        assert(proceeds(
            self@.config,
            budget,
            counted_view(seen),
            transport,
            final_body,
            res_view(response),
        ));
        assert(weighs(
            self@.config,
            budget,
            transport,
            counter,
            final_body,
            res_view(response),
        ));
        response
    }

    fn send<T: HttpTransport>(&self, transport: &T, body: Keyed<Json>) -> (response: Result<
        ModelResponse,
        ModelError,
    >)
        ensures
            sends(self@.config, transport, object_view(body), res_view(response)),
    {
        let request = self.http_request(body);
        let answer = transport.post_json(request);
        assert(call_ensures(T::post_json, (transport, request), answer));
        self.conclude(answer)
    }
}

fn add_header(headers: &mut Keyed<String>, name: &str, value: String)
    ensures
        keyed_view(final(headers)@) == keyed_view(old(headers)@).insert(name@, value@),
{
    let ghost before = headers@;
    let _ = headers.insert(name.to_owned(), value);
    assert(keyed_view(headers@) =~= keyed_view(before).insert(name@, value@));
}

fn copy_members(members: &Keyed<Json>) -> (copy: Keyed<Json>)
    ensures
        object_view(copy) == object_view(*members),
{
    let copy = snapshot_keyed(members);
    proof {
        lemma_object(*members);
        lemma_object(copy);
        assert(copy@.dom() =~= members@.dom()) by {
            assert(keyed_view(copy@).dom() =~= copy@.dom());
            assert(keyed_view(members@).dom() =~= members@.dom());
        }
        assert forall|key: Seq<char>| #[trigger] members@.contains_key(key) implies json_view(
            copy@[key],
        ) == json_view(members@[key]) by {
            assert(keyed_view(copy@)[key] == keyed_view(members@)[key]);
        }
        assert(object_view(copy) =~= object_view(*members));
    }
    copy
}

// ---------------------------------------------------------------------------
// Laws
// ---------------------------------------------------------------------------

/// Extensions cannot restore tools that policy hides: whatever they hold, the request names
/// the tools of the model request and no others, offers no functions, and lets the provider
/// choose among tools only where there are some.
pub proof fn law_extensions_cannot_restore_hidden_tools(
    adapter: AdapterView,
    request: ModelRequestView,
)
    ensures
        ({
            let body = framed_body(adapter, request);
            &&& (request.tools.len() == 0 ==> !body.contains_key("tools"@) && !body.contains_key(
                "tool_choice"@,
            ))
            &&& (request.tools.len() > 0 ==> body.contains_key("tools"@) && body["tools"@]
                == JsonView::Array(sent_tools(request.tools)))
            &&& !body.contains_key("functions"@)
            &&& !body.contains_key("function_call"@)
        }),
{
    lemma_keys_differ();
}

/// Extensions cannot change the model or the messages of a request, nor decide whether it is
/// streamed.
pub proof fn law_extensions_cannot_change_the_request(
    adapter: AdapterView,
    request: ModelRequestView,
)
    ensures
        ({
            let body = framed_body(adapter, request);
            &&& body.contains_key("model"@) && body["model"@] == JsonView::Text(
                adapter.config.model,
            )
            &&& body.contains_key("messages"@) && body["messages"@] == JsonView::Array(
                sent_messages(request),
            )
            &&& asks_for_stream(JsonView::Object(body)) == adapter.streaming
        }),
{
    lemma_keys_differ();
}

/// A request under a budget always has an output cap, positive and within the reservation,
/// and with its counted input it fits the context window.
pub proof fn law_admitted_requests_fit_the_window(
    budget: RequestBudget,
    body: Map<Seq<char>, JsonView>,
    final_body: Map<Seq<char>, JsonView>,
    input: u64,
)
    requires
        usable_budget(budget),
        capped_body(budget, body) == Ok::<Map<Seq<char>, JsonView>, ModelErrorView>(final_body),
        admitted(budget, Ok(input)) is Ok,
    ensures
        exists|key: Seq<char>|
            (key == "max_completion_tokens"@ || key == "max_tokens"@)
                && #[trigger] final_body.contains_key(key) && (unsigned_of(
                final_body[key],
            ) matches Some(cap) && 0 < cap && input + cap <= budget.context_window_tokens),
{
    lemma_keys_differ();
    let key = if body.contains_key("max_completion_tokens"@) {
        "max_completion_tokens"@
    } else if body.contains_key("max_tokens"@) {
        "max_tokens"@
    } else {
        "max_completion_tokens"@
    };
    assert(final_body.contains_key(key));
}

proof fn lemma_keys_differ()
    ensures
        "tools"@ != "functions"@,
        "tools"@ != "function_call"@,
        "tools"@ != "tool_choice"@,
        "tools"@ != "model"@,
        "tools"@ != "messages"@,
        "tools"@ != "stream"@,
        "tools"@ != "stream_options"@,
        "functions"@ != "model"@,
        "functions"@ != "messages"@,
        "functions"@ != "stream"@,
        "functions"@ != "stream_options"@,
        "function_call"@ != "model"@,
        "function_call"@ != "messages"@,
        "function_call"@ != "stream"@,
        "function_call"@ != "stream_options"@,
        "tool_choice"@ != "model"@,
        "tool_choice"@ != "messages"@,
        "tool_choice"@ != "stream"@,
        "tool_choice"@ != "stream_options"@,
        "model"@ != "messages"@,
        "model"@ != "stream"@,
        "model"@ != "stream_options"@,
        "messages"@ != "stream"@,
        "messages"@ != "stream_options"@,
        "stream"@ != "stream_options"@,
        "max_completion_tokens"@ != "max_tokens"@,
{
    reveal_strlit("tools");
    reveal_strlit("functions");
    reveal_strlit("function_call");
    reveal_strlit("tool_choice");
    reveal_strlit("model");
    reveal_strlit("messages");
    reveal_strlit("stream");
    reveal_strlit("stream_options");
    reveal_strlit("max_completion_tokens");
    reveal_strlit("max_tokens");
    assert("model"@[0] == 'm' && "tools"@[0] == 't' && "messages"@[1] == 'e' && "model"@[1] == 'o');
    assert("functions"@[0] == 'f' && "stream"@[0] == 's');
    assert("functions"@.len() == 9 && "function_call"@.len() == 13);
    assert("stream"@.len() == 6 && "stream_options"@.len() == 14);
    assert("max_tokens"@.len() == 10 && "max_completion_tokens"@.len() == 21);
    assert("tool_choice"@.len() == 11 && "tools"@.len() == 5 && "model"@.len() == 5);
}

} // verus!
