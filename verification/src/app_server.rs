//! A line-oriented JSON-RPC control plane.

use vstd::prelude::*;
use vstd::string::*;

use crate::datum::{done_view, lemma_views_push, opt_view, res_view, views, Datum};
use crate::event::{EventEnvelope, EventEnvelopeView};
use crate::id::{ThreadId, TurnId};
use crate::json::{
    bare_object, json_parse, member, no_members, parse, text_json, with_member, Json, JsonView,
};
use crate::keyed::{keyed_view, Keyed};
use crate::provider::{
    get_text, get_unsigned, make_pair, make_triple, pair_object, text_member, triple_object,
    unsigned_member,
};
use crate::text::{blank, is_blank, same_text};
use crate::turn::{
    runtime_error_text, RuntimeError, RuntimeErrorView, TurnOutcome, TurnOutcomeView,
};

verus! {

/// Where a turn in the background stands.
#[derive(Debug, PartialEq, Eq)]
pub enum TurnRunState {
    Running,
    Completed { content: String },
    Failed { error: String },
    Cancelled,
}

/// The model of [`TurnRunState`].
#[verifier::ext_equal]
pub ghost enum TurnRunStateView {
    Running,
    Completed { content: Seq<char> },
    Failed { error: Seq<char> },
    Cancelled,
}

impl View for TurnRunState {
    type V = TurnRunStateView;

    open spec fn view(&self) -> TurnRunStateView {
        match *self {
            TurnRunState::Running => TurnRunStateView::Running,
            TurnRunState::Completed { content } => TurnRunStateView::Completed {
                content: content@,
            },
            TurnRunState::Failed { error } => TurnRunStateView::Failed { error: error@ },
            TurnRunState::Cancelled => TurnRunStateView::Cancelled,
        }
    }
}

impl Datum for TurnRunState {
    fn snapshot(&self) -> (copy: Self) {
        match self {
            TurnRunState::Running => TurnRunState::Running,
            TurnRunState::Completed { content } => TurnRunState::Completed {
                content: content.snapshot(),
            },
            TurnRunState::Failed { error } => TurnRunState::Failed { error: error.snapshot() },
            TurnRunState::Cancelled => TurnRunState::Cancelled,
        }
    }

    fn same(&self, other: &Self) -> (equal: bool) {
        match (self, other) {
            (TurnRunState::Running, TurnRunState::Running) => true,
            (
                TurnRunState::Completed { content: content_a },
                TurnRunState::Completed { content: content_b },
            ) => content_a.same(content_b),
            (
                TurnRunState::Failed { error: error_a },
                TurnRunState::Failed { error: error_b },
            ) => error_a.same(error_b),
            (TurnRunState::Cancelled, TurnRunState::Cancelled) => true,
            _ => false,
        }
    }
}

impl Clone for TurnRunState {
    fn clone(&self) -> (copy: Self)
        ensures
            copy@ == self@,
    {
        self.snapshot()
    }
}

/// Why the server stopped.
#[derive(Debug, PartialEq, Eq)]
pub enum ServerError {
    Input(String),
    Output(String),
}

/// The model of [`ServerError`].
#[verifier::ext_equal]
pub ghost enum ServerErrorView {
    Input(Seq<char>),
    Output(Seq<char>),
}

impl View for ServerError {
    type V = ServerErrorView;

    open spec fn view(&self) -> ServerErrorView {
        match *self {
            ServerError::Input(x0) => ServerErrorView::Input(x0@),
            ServerError::Output(x0) => ServerErrorView::Output(x0@),
        }
    }
}

impl Datum for ServerError {
    fn snapshot(&self) -> (copy: Self) {
        match self {
            ServerError::Input(x0) => ServerError::Input(x0.snapshot()),
            ServerError::Output(x0) => ServerError::Output(x0.snapshot()),
        }
    }

    fn same(&self, other: &Self) -> (equal: bool) {
        match (self, other) {
            (ServerError::Input(x0), ServerError::Input(y0)) => x0.same(y0),
            (ServerError::Output(x0), ServerError::Output(y0)) => x0.same(y0),
            _ => false,
        }
    }
}

impl Clone for ServerError {
    fn clone(&self) -> (copy: Self)
        ensures
            copy@ == self@,
    {
        self.snapshot()
    }
}

/// The message of a failure.
pub open spec fn server_error_text(error: ServerErrorView) -> Seq<char> {
    match error {
        ServerErrorView::Input(detail) => "JSON-RPC input error: "@ + detail,
        ServerErrorView::Output(detail) => "JSON-RPC output error: "@ + detail,
    }
}

impl ServerError {
    pub fn to_text(&self) -> (text: String)
        ensures
            text@ == server_error_text(self@),
    {
        match self {
            ServerError::Input(detail) => {
                "JSON-RPC input error: ".to_owned().concat(detail.as_str())
            },
            ServerError::Output(detail) => {
                "JSON-RPC output error: ".to_owned().concat(detail.as_str())
            },
        }
    }
}

/// The error of a response.
#[derive(Debug, PartialEq, Eq)]
pub struct RpcError {
    pub code: i64,
    pub message: String,
}

/// The model of [`RpcError`].
#[verifier::ext_equal]
pub ghost struct RpcErrorView {
    pub code: i64,
    pub message: Seq<char>,
}

impl View for RpcError {
    type V = RpcErrorView;

    open spec fn view(&self) -> RpcErrorView {
        RpcErrorView {
            code: self.code,
            message: self.message@,
        }
    }
}

impl Datum for RpcError {
    fn snapshot(&self) -> (copy: Self) {
        RpcError {
            code: self.code,
            message: self.message.snapshot(),
        }
    }

    fn same(&self, other: &Self) -> (equal: bool) {
        self.code == other.code && self.message.same(&other.message)
    }
}

impl Clone for RpcError {
    fn clone(&self) -> (copy: Self)
        ensures
            copy@ == self@,
    {
        self.snapshot()
    }
}

/// An error with a code.
pub open spec fn rpc_error(code: int, message: Seq<char>) -> RpcErrorView {
    RpcErrorView { code: code as i64, message }
}

impl RpcError {
    pub fn invalid_request(message: String) -> (error: Self)
        ensures
            error@ == rpc_error(-32600, message@),
    {
        RpcError { code: -32600, message }
    }

    pub fn invalid_params(message: String) -> (error: Self)
        ensures
            error@ == rpc_error(-32602, message@),
    {
        RpcError { code: -32602, message }
    }

    pub fn internal(message: String) -> (error: Self)
        ensures
            error@ == rpc_error(-32603, message@),
    {
        RpcError { code: -32603, message }
    }
}

// ---------------------------------------------------------------------------
// Responses
// ---------------------------------------------------------------------------

/// The error of a response.
pub open spec fn error_value(error: RpcErrorView) -> JsonView {
    pair_object(
        "code"@,
        JsonView::Integer(error.code as int),
        "message"@,
        JsonView::Text(error.message),
    )
}

/// A response.
pub open spec fn response_value(id: JsonView, result: Result<JsonView, RpcErrorView>) -> JsonView {
    match result {
        Ok(value) => triple_object(
            "jsonrpc"@,
            JsonView::Text("2.0"@),
            "id"@,
            id,
            "result"@,
            value,
        ),
        Err(error) => triple_object(
            "jsonrpc"@,
            JsonView::Text("2.0"@),
            "id"@,
            id,
            "error"@,
            error_value(error),
        ),
    }
}

/// The response to a request, if it has an identifier. A request without one is a
/// notification, and gets none.
pub open spec fn reply_of(request: JsonView, result: Result<JsonView, RpcErrorView>) -> Option<
    JsonView,
> {
    match member(request, "id"@) {
        Some(id) => Some(response_value(id, result)),
        None => None,
    }
}

fn make_error(error: &RpcError) -> (json: Json)
    ensures
        json@ == error_value(error@),
{
    let code = if error.code >= 0 {
        Json::Unsigned(error.code as u64)
    } else {
        Json::Negative(error.code)
    };
    make_pair("code", code, "message", text_json(error.message.as_str()))
}

fn make_response(id: Json, result: Result<Json, RpcError>) -> (json: Json)
    ensures
        json@ == response_value(id@, res_view(result)),
{
    match result {
        Ok(value) => make_triple("jsonrpc", text_json("2.0"), "id", id, "result", value),
        Err(error) => make_triple(
            "jsonrpc",
            text_json("2.0"),
            "id",
            id,
            "error",
            make_error(&error),
        ),
    }
}

/// The response to a request.
pub fn reply(request: &Json, result: Result<Json, RpcError>) -> (response: Option<Json>)
    ensures
        opt_view(response) == reply_of(request@, res_view(result)),
{
    match request.get("id") {
        Some(id) => Some(make_response(id.clone(), result)),
        None => None,
    }
}

/// What a line of input asks for.
#[derive(Debug)]
pub enum ServerLine {
    /// Nothing.
    Blank,
    /// This response: the line is no JSON.
    Malformed(Json),
    /// This request.
    Request(Json),
}

/// The response to a line that is no JSON.
pub open spec fn malformed_value(message: Seq<char>) -> JsonView {
    response_value(JsonView::Null, Err(rpc_error(-32700, message)))
}

/// Reads a line of input.
pub fn read_line(line: &str) -> (read: ServerLine)
    ensures
        match read {
            ServerLine::Blank => blank(line@),
            ServerLine::Malformed(response) => !blank(line@) && (json_parse(line@) matches Err(
                message,
            ) && response@ == malformed_value(message)),
            ServerLine::Request(request) => !blank(line@) && json_parse(line@) == Ok::<
                JsonView,
                Seq<char>,
            >(request@),
        },
{
    if is_blank(line) {
        return ServerLine::Blank;
    }
    match parse(line) {
        Ok(request) => ServerLine::Request(request),
        Err(message) => ServerLine::Malformed(
            make_response(Json::Null, Err(RpcError { code: -32700, message })),
        ),
    }
}

// ---------------------------------------------------------------------------
// Requests
// ---------------------------------------------------------------------------

/// What the host is to do for a request.
#[derive(Debug)]
pub enum RpcPlan {
    /// Answer with this value.
    Answer(Json),
    /// Start a thread, and answer with it.
    StartThread,
    /// Answer with the events of a thread, behind a number if one is given.
    Events { thread_id: ThreadId, after_sequence: Option<u64> },
    /// Recover a thread, and answer with the report.
    Recover { thread_id: ThreadId },
    /// Start a turn in a thread, if the thread exists and the input is a text.
    StartTurn { thread_id: ThreadId, input: Option<String> },
    /// Ask a running turn to stop, and answer with this value.
    Cancel { turn_id: TurnId, answer: Json },
}

/// The model of [`RpcPlan`].
#[verifier::ext_equal]
pub ghost enum RpcPlanView {
    Answer(JsonView),
    StartThread,
    Events { thread_id: Seq<char>, after_sequence: Option<u64> },
    Recover { thread_id: Seq<char> },
    StartTurn { thread_id: Seq<char>, input: Option<Seq<char>> },
    Cancel { turn_id: Seq<char>, answer: JsonView },
}

impl View for RpcPlan {
    type V = RpcPlanView;

    open spec fn view(&self) -> RpcPlanView {
        match *self {
            RpcPlan::Answer(value) => RpcPlanView::Answer(value@),
            RpcPlan::StartThread => RpcPlanView::StartThread,
            RpcPlan::Events { thread_id, after_sequence } => RpcPlanView::Events {
                thread_id: thread_id@,
                after_sequence,
            },
            RpcPlan::Recover { thread_id } => RpcPlanView::Recover { thread_id: thread_id@ },
            RpcPlan::StartTurn { thread_id, input } => RpcPlanView::StartTurn {
                thread_id: thread_id@,
                input: opt_view(input),
            },
            RpcPlan::Cancel { turn_id, answer } => RpcPlanView::Cancel {
                turn_id: turn_id@,
                answer: answer@,
            },
        }
    }
}

/// A turn in the background.
#[derive(Debug, PartialEq, Eq)]
pub struct TurnControl {
    pub thread_id: ThreadId,
    pub state: TurnRunState,
}

/// The model of [`TurnControl`].
#[verifier::ext_equal]
pub ghost struct TurnControlView {
    pub thread_id: Seq<char>,
    pub state: TurnRunStateView,
}

impl View for TurnControl {
    type V = TurnControlView;

    open spec fn view(&self) -> TurnControlView {
        TurnControlView {
            thread_id: self.thread_id@,
            state: self.state@,
        }
    }
}

impl Datum for TurnControl {
    fn snapshot(&self) -> (copy: Self) {
        TurnControl {
            thread_id: self.thread_id.snapshot(),
            state: self.state.snapshot(),
        }
    }

    fn same(&self, other: &Self) -> (equal: bool) {
        self.thread_id.same(&other.thread_id) && self.state.same(&other.state)
    }
}

impl Clone for TurnControl {
    fn clone(&self) -> (copy: Self)
        ensures
            copy@ == self@,
    {
        self.snapshot()
    }
}

/// The state of a turn in a response.
pub open spec fn state_value(state: TurnRunStateView) -> JsonView {
    match state {
        TurnRunStateView::Running => JsonView::Object(
            bare_object().insert("status"@, JsonView::Text("running"@)),
        ),
        TurnRunStateView::Completed { content } => pair_object(
            "status"@,
            JsonView::Text("completed"@),
            "content"@,
            JsonView::Text(content),
        ),
        TurnRunStateView::Failed { error } => pair_object(
            "status"@,
            JsonView::Text("failed"@),
            "error"@,
            JsonView::Text(error),
        ),
        TurnRunStateView::Cancelled => JsonView::Object(
            bare_object().insert("status"@, JsonView::Text("cancelled"@)),
        ),
    }
}

/// The parameters of a request, or null.
pub open spec fn params_of(request: JsonView) -> JsonView {
    match member(request, "params"@) {
        Some(params) => params,
        None => JsonView::Null,
    }
}

/// The thread that parameters name.
pub open spec fn thread_of(params: JsonView) -> Result<Seq<char>, RpcErrorView> {
    match text_member(params, "thread_id"@) {
        Some(id) => Ok(id),
        None => Err(rpc_error(-32602, "thread_id must be a string"@)),
    }
}

/// The turn that parameters name.
pub open spec fn turn_of(params: JsonView) -> Result<Seq<char>, RpcErrorView> {
    match text_member(params, "turn_id"@) {
        Some(id) => Ok(id),
        None => Err(rpc_error(-32602, "turn_id must be a string"@)),
    }
}

/// The answer to the question where a turn stands.
pub open spec fn status_of(
    turns: Map<Seq<char>, TurnControlView>,
    params: JsonView,
) -> Result<RpcPlanView, RpcErrorView> {
    match turn_of(params) {
        Err(error) => Err(error),
        Ok(id) => if turns.contains_key(id) {
            Ok(
                RpcPlanView::Answer(
                    triple_object(
                        "thread_id"@,
                        JsonView::Text(turns[id].thread_id),
                        "turn_id"@,
                        JsonView::Text(id),
                        "state"@,
                        state_value(turns[id].state),
                    ),
                ),
            )
        } else {
            Err(rpc_error(-32602, "turn does not exist"@))
        },
    }
}

/// The answer to the wish that a turn stops: only a running turn can.
pub open spec fn cancel_of(
    turns: Map<Seq<char>, TurnControlView>,
    params: JsonView,
) -> Result<RpcPlanView, RpcErrorView> {
    match turn_of(params) {
        Err(error) => Err(error),
        Ok(id) => if !turns.contains_key(id) {
            Err(rpc_error(-32602, "turn does not exist"@))
        } else if turns[id].state != TurnRunStateView::Running {
            Err(rpc_error(-32602, "turn is not running"@))
        } else {
            Ok(
                RpcPlanView::Cancel {
                    turn_id: id,
                    answer: pair_object(
                        "turn_id"@,
                        JsonView::Text(id),
                        "cancellation_requested"@,
                        JsonView::Bool(true),
                    ),
                },
            )
        },
    }
}

/// What a method with parameters asks for.
pub open spec fn method_plan(
    turns: Map<Seq<char>, TurnControlView>,
    method: Seq<char>,
    params: JsonView,
) -> Result<RpcPlanView, RpcErrorView> {
    if method == "server/health"@ {
        Ok(
            RpcPlanView::Answer(
                JsonView::Object(bare_object().insert("status"@, JsonView::Text("ok"@))),
            ),
        )
    } else if method == "thread/start"@ {
        Ok(RpcPlanView::StartThread)
    } else if method == "thread/events"@ {
        match thread_of(params) {
            Ok(thread_id) => Ok(
                RpcPlanView::Events {
                    thread_id,
                    after_sequence: unsigned_member(params, "after_sequence"@),
                },
            ),
            Err(error) => Err(error),
        }
    } else if method == "thread/recover"@ {
        match thread_of(params) {
            Ok(thread_id) => Ok(RpcPlanView::Recover { thread_id }),
            Err(error) => Err(error),
        }
    } else if method == "turn/start"@ {
        match thread_of(params) {
            Ok(thread_id) => Ok(
                RpcPlanView::StartTurn { thread_id, input: text_member(params, "input"@) },
            ),
            Err(error) => Err(error),
        }
    } else if method == "turn/status"@ {
        status_of(turns, params)
    } else if method == "turn/cancel"@ {
        cancel_of(turns, params)
    } else {
        Err(rpc_error(-32601, "method `"@ + method + "` was not found"@))
    }
}

/// What a request asks for, or why it is refused.
pub open spec fn plan_of(turns: Map<Seq<char>, TurnControlView>, request: JsonView) -> Result<
    RpcPlanView,
    RpcErrorView,
> {
    if text_member(request, "jsonrpc"@) != Some("2.0"@) {
        Err(rpc_error(-32600, "jsonrpc must be `2.0`"@))
    } else {
        match text_member(request, "method"@) {
            None => Err(rpc_error(-32600, "method must be a string"@)),
            Some(method) => method_plan(turns, method, params_of(request)),
        }
    }
}

/// The answer to the start of a turn, and the turns after it. The thread is looked up
/// before the input.
pub open spec fn turn_started(
    turns: Map<Seq<char>, TurnControlView>,
    thread_id: Seq<char>,
    found: Result<(), RuntimeErrorView>,
    input: Option<Seq<char>>,
    turn_id: Seq<char>,
) -> (Map<Seq<char>, TurnControlView>, Result<JsonView, RpcErrorView>) {
    match found {
        Err(error) => (turns, Err(rpc_error(-32603, runtime_error_text(error)))),
        Ok(()) => match input {
            None => (turns, Err(rpc_error(-32602, "input must be a string"@))),
            Some(_) => (
                turns.insert(
                    turn_id,
                    TurnControlView { thread_id, state: TurnRunStateView::Running },
                ),
                Ok(
                    pair_object(
                        "thread_id"@,
                        JsonView::Text(thread_id),
                        "turn_id"@,
                        JsonView::Text(turn_id),
                    ),
                ),
            ),
        },
    }
}

/// How a turn ended.
pub open spec fn ended_state(result: Result<TurnOutcomeView, RuntimeErrorView>) -> TurnRunStateView {
    match result {
        Ok(outcome) => TurnRunStateView::Completed { content: outcome.content },
        Err(RuntimeErrorView::Cancelled(_)) => TurnRunStateView::Cancelled,
        Err(error) => TurnRunStateView::Failed { error: runtime_error_text(error) },
    }
}

/// The turns after one of them ended.
pub open spec fn turn_ended(
    turns: Map<Seq<char>, TurnControlView>,
    turn_id: Seq<char>,
    result: Result<TurnOutcomeView, RuntimeErrorView>,
) -> Map<Seq<char>, TurnControlView> {
    if turns.contains_key(turn_id) {
        turns.insert(
            turn_id,
            TurnControlView { state: ended_state(result), ..turns[turn_id] },
        )
    } else {
        turns
    }
}

/// The events behind a number.
pub open spec fn events_behind(events: Seq<EventEnvelopeView>, after: Option<u64>) -> Seq<
    EventEnvelopeView,
>
    decreases events.len(),
{
    if events.len() == 0 {
        Seq::empty()
    } else {
        let earlier = events_behind(events.drop_last(), after);
        let shown = match after {
            Some(number) => events.last().sequence > number,
            None => true,
        };
        if shown {
            earlier.push(events.last())
        } else {
            earlier
        }
    }
}

fn make_state(state: &TurnRunState) -> (json: Json)
    ensures
        json@ == state_value(state@),
{
    match state {
        TurnRunState::Running => Json::Object(
            with_member(no_members(), "status", text_json("running")),
        ),
        TurnRunState::Completed { content } => make_pair(
            "status",
            text_json("completed"),
            "content",
            text_json(content.as_str()),
        ),
        TurnRunState::Failed { error } => make_pair(
            "status",
            text_json("failed"),
            "error",
            text_json(error.as_str()),
        ),
        TurnRunState::Cancelled => Json::Object(
            with_member(no_members(), "status", text_json("cancelled")),
        ),
    }
}

fn thread_param(params: &Json) -> (thread: Result<ThreadId, RpcError>)
    ensures
        match thread {
            Ok(id) => thread_of(params@) == Ok::<Seq<char>, RpcErrorView>(id@),
            Err(error) => thread_of(params@) == Err::<Seq<char>, RpcErrorView>(error@),
        },
{
    match get_text(params, "thread_id") {
        Some(id) => Ok(ThreadId::from_string(id.clone())),
        None => Err(RpcError::invalid_params("thread_id must be a string".to_owned())),
    }
}

fn turn_param(params: &Json) -> (turn: Result<TurnId, RpcError>)
    ensures
        match turn {
            Ok(id) => turn_of(params@) == Ok::<Seq<char>, RpcErrorView>(id@),
            Err(error) => turn_of(params@) == Err::<Seq<char>, RpcErrorView>(error@),
        },
{
    match get_text(params, "turn_id") {
        Some(id) => Ok(TurnId::from_string(id.clone())),
        None => Err(RpcError::invalid_params("turn_id must be a string".to_owned())),
    }
}

/// The error of a request that the runtime refused.
pub fn runtime_error(error: &RuntimeError) -> (rpc: RpcError)
    ensures
        rpc@ == rpc_error(-32603, runtime_error_text(error@)),
{
    RpcError::internal(error.to_text())
}

/// The answer to the start of a thread.
pub fn thread_started(started: Result<ThreadId, RuntimeError>) -> (answer: Result<Json, RpcError>)
    ensures
        res_view(answer) == (match res_view(started) {
            Ok(id) => Ok(
                JsonView::Object(bare_object().insert("thread_id"@, JsonView::Text(id))),
            ),
            Err(error) => Err(rpc_error(-32603, runtime_error_text(error))),
        }),
{
    match started {
        Ok(id) => Ok(
            Json::Object(with_member(no_members(), "thread_id", text_json(id.as_str()))),
        ),
        Err(error) => Err(runtime_error(&error)),
    }
}

/// The events that a request asks for.
pub fn select_events(events: &Vec<EventEnvelope>, after: Option<u64>) -> (found: Vec<EventEnvelope>)
    ensures
        views(found@) == events_behind(views(events@), after),
{
    let ghost all = views(events@);
    let mut found: Vec<EventEnvelope> = Vec::new();
    let mut at: usize = 0;
    assert(all.take(0) =~= Seq::empty());
    assert(views(found@) =~= events_behind(all.take(0), after));
    while at < events.len()
        invariant
            at <= events@.len(),
            all == views(events@),
            views(found@) == events_behind(all.take(at as int), after),
        decreases events@.len() - at,
    {
        proof {
            let grown = all.take(at as int + 1);
            assert(grown.drop_last() =~= all.take(at as int));
            assert(grown.last() == events@[at as int]@);
        }
        let shown = match after {
            Some(number) => events[at].sequence > number,
            None => true,
        };
        if shown {
            let event = events[at].clone();
            proof {
                lemma_views_push(found@, event);
            }
            found.push(event);
        }
        at = at + 1;
    }
    assert(all.take(at as int) =~= all);
    found
}

/// A line-oriented JSON-RPC control plane over a runtime. The host runs the turns.
#[derive(Debug)]
pub struct AppServer {
    turns: Keyed<TurnControl>,
}

impl View for AppServer {
    type V = Map<Seq<char>, TurnControlView>;

    closed spec fn view(&self) -> Map<Seq<char>, TurnControlView> {
        keyed_view(self.turns@)
    }
}

impl AppServer {
    pub fn new() -> (server: Self)
        ensures
            server@ == Map::<Seq<char>, TurnControlView>::empty(),
    {
        let server = AppServer { turns: Keyed::new() };
        assert(server@ =~= Map::<Seq<char>, TurnControlView>::empty());
        server
    }

    fn status(&self, params: &Json) -> (plan: Result<RpcPlan, RpcError>)
        ensures
            res_view(plan) == status_of(self@, params@),
    {
        let turn_id = match turn_param(params) {
            Ok(turn_id) => turn_id,
            Err(error) => {
                return Err(error);
            },
        };
        match self.turns.get(turn_id.as_str()) {
            Some(control) => {
                assert(self@[turn_id@] == control@);
                Ok(
                    RpcPlan::Answer(
                        make_triple(
                            "thread_id",
                            text_json(control.thread_id.as_str()),
                            "turn_id",
                            text_json(turn_id.as_str()),
                            "state",
                            make_state(&control.state),
                        ),
                    ),
                )
            },
            None => Err(RpcError::invalid_params("turn does not exist".to_owned())),
        }
    }

    fn cancel(&self, params: &Json) -> (plan: Result<RpcPlan, RpcError>)
        ensures
            res_view(plan) == cancel_of(self@, params@),
    {
        let turn_id = match turn_param(params) {
            Ok(turn_id) => turn_id,
            Err(error) => {
                return Err(error);
            },
        };
        match self.turns.get(turn_id.as_str()) {
            Some(control) => {
                assert(self@[turn_id@] == control@);
                match control.state {
                    TurnRunState::Running => {
                        let answer = make_pair(
                            "turn_id",
                            text_json(turn_id.as_str()),
                            "cancellation_requested",
                            Json::Bool(true),
                        );
                        Ok(RpcPlan::Cancel { turn_id, answer })
                    },
                    _ => Err(RpcError::invalid_params("turn is not running".to_owned())),
                }
            },
            None => Err(RpcError::invalid_params("turn does not exist".to_owned())),
        }
    }

    fn plan_method(&self, method: &str, params: &Json) -> (plan: Result<RpcPlan, RpcError>)
        ensures
            res_view(plan) == method_plan(self@, method@, params@),
    {
        if same_text(method, "server/health") {
            return Ok(
                RpcPlan::Answer(
                    Json::Object(with_member(no_members(), "status", text_json("ok"))),
                ),
            );
        }
        if same_text(method, "thread/start") {
            return Ok(RpcPlan::StartThread);
        }
        if same_text(method, "thread/events") {
            return match thread_param(params) {
                Ok(thread_id) => Ok(
                    RpcPlan::Events {
                        thread_id,
                        after_sequence: get_unsigned(params, "after_sequence"),
                    },
                ),
                Err(error) => Err(error),
            };
        }
        if same_text(method, "thread/recover") {
            return match thread_param(params) {
                Ok(thread_id) => Ok(RpcPlan::Recover { thread_id }),
                Err(error) => Err(error),
            };
        }
        if same_text(method, "turn/start") {
            return match thread_param(params) {
                Ok(thread_id) => {
                    let input = match get_text(params, "input") {
                        Some(input) => Some(input.clone()),
                        None => None,
                    };
                    Ok(RpcPlan::StartTurn { thread_id, input })
                },
                Err(error) => Err(error),
            };
        }
        if same_text(method, "turn/status") {
            return self.status(params);
        }
        if same_text(method, "turn/cancel") {
            return self.cancel(params);
        }
        Err(
            RpcError {
                code: -32601,
                message: "method `".to_owned().concat(method).concat("` was not found"),
            },
        )
    }

    /// What a request asks for.
    pub fn dispatch(&self, request: &Json) -> (plan: Result<RpcPlan, RpcError>)
        ensures
            res_view(plan) == plan_of(self@, request@),
    {
        let supported = match get_text(request, "jsonrpc") {
            Some(version) => same_text(version.as_str(), "2.0"),
            None => false,
        };
        if !supported {
            return Err(RpcError::invalid_request("jsonrpc must be `2.0`".to_owned()));
        }
        let method = match get_text(request, "method") {
            Some(method) => method,
            None => {
                return Err(RpcError::invalid_request("method must be a string".to_owned()));
            },
        };
        match request.get("params") {
            Some(params) => self.plan_method(method.as_str(), params),
            None => self.plan_method(method.as_str(), &Json::Null),
        }
    }

    /// Notes the start of a turn, given whether its thread was found. The host runs the
    /// turn if the answer is a value.
    pub fn start_turn(
        &mut self,
        thread_id: &ThreadId,
        found: Result<(), RuntimeError>,
        input: &Option<String>,
        turn_id: &TurnId,
    ) -> (answer: Result<Json, RpcError>)
        ensures
            (final(self)@, res_view(answer)) == turn_started(
                old(self)@,
                thread_id@,
                done_view(found),
                opt_view(*input),
                turn_id@,
            ),
    {
        match found {
            Ok(()) => {},
            Err(error) => {
                return Err(runtime_error(&error));
            },
        }
        if input.is_none() {
            return Err(RpcError::invalid_params("input must be a string".to_owned()));
        }
        let ghost before = self@;
        let control = TurnControl { thread_id: thread_id.clone(), state: TurnRunState::Running };
        let _ = self.turns.insert(turn_id.as_str().to_owned(), control);
        assert(self@ =~= before.insert(turn_id@, control@));
        Ok(
            make_pair(
                "thread_id",
                text_json(thread_id.as_str()),
                "turn_id",
                text_json(turn_id.as_str()),
            ),
        )
    }

    /// Notes the end of a turn.
    pub fn end_turn(&mut self, turn_id: &TurnId, result: Result<TurnOutcome, RuntimeError>)
        ensures
            final(self)@ == turn_ended(old(self)@, turn_id@, res_view(result)),
    {
        let ghost before = self@;
        let thread_id = match self.turns.get(turn_id.as_str()) {
            Some(control) => {
                assert(before[turn_id@] == control@);
                control.thread_id.clone()
            },
            None => {
                return;
            },
        };
        let state = match result {
            Ok(outcome) => TurnRunState::Completed { content: outcome.content },
            Err(error) => match error {
                RuntimeError::Cancelled(_) => TurnRunState::Cancelled,
                other => TurnRunState::Failed { error: other.to_text() },
            },
        };
        let control = TurnControl { thread_id, state };
        let _ = self.turns.insert(turn_id.as_str().to_owned(), control);
        assert(self@ =~= before.insert(turn_id@, control@));
    }
}

// ---------------------------------------------------------------------------
// Laws
// ---------------------------------------------------------------------------

/// A response carries the identifier of its request and either a result or an error, and a
/// notification gets no response.
pub proof fn law_responses_carry_their_identifier(
    request: JsonView,
    result: Result<JsonView, RpcErrorView>,
)
    ensures
        reply_of(request, result) is None <==> member(request, "id"@) is None,
        reply_of(request, result) matches Some(response) ==> member(response, "id"@) == member(
            request,
            "id"@,
        ) && text_member(response, "jsonrpc"@) == Some("2.0"@) && (member(response, "result"@)
            is Some <==> result is Ok) && (member(response, "error"@) is Some <==> result is Err),
{
    reveal_strlit("id");
    reveal_strlit("jsonrpc");
    reveal_strlit("result");
    reveal_strlit("error");
    assert("id"@.len() == 2 && "jsonrpc"@.len() == 7 && "result"@.len() == 6 && "error"@.len()
        == 5);
}

/// A turn that was started is running until it ends, and from then on its status says how
/// it ended. Another turn's end changes nothing.
pub proof fn law_status_follows_the_turn(
    turns: Map<Seq<char>, TurnControlView>,
    thread_id: Seq<char>,
    input: Seq<char>,
    turn_id: Seq<char>,
    other: Seq<char>,
    result: Result<TurnOutcomeView, RuntimeErrorView>,
)
    requires
        other != turn_id,
    ensures
        ({
            let (started, answer) = turn_started(turns, thread_id, Ok(()), Some(input), turn_id);
            &&& answer is Ok
            &&& started[turn_id] == (TurnControlView {
                thread_id,
                state: TurnRunStateView::Running,
            })
            &&& turn_ended(started, other, result)[turn_id] == started[turn_id]
            &&& turn_ended(started, turn_id, result)[turn_id] == (TurnControlView {
                thread_id,
                state: ended_state(result),
            })
            &&& ended_state(result) != TurnRunStateView::Running
        }),
{
}

/// Only a running turn is asked to stop.
pub proof fn law_only_running_turns_are_cancelled(
    turns: Map<Seq<char>, TurnControlView>,
    request: JsonView,
)
    ensures
        plan_of(turns, request) matches Ok(RpcPlanView::Cancel { turn_id, .. })
            ==> turns.contains_key(turn_id) && turns[turn_id].state == TurnRunStateView::Running,
{
}

} // verus!
