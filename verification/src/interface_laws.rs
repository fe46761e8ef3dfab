//! What the server answers, and what the terminal shows.

use vstd::prelude::*;

use crate::app_server::{
    events_behind, malformed_value, plan_of, read_line, reply_of, state_value, thread_started,
    turn_ended, turn_started, RpcError, RpcErrorView, RpcPlanView, ServerLine, TurnControlView,
    TurnRunStateView,
};
use crate::approval::{ApprovalDecisionView, ApprovalRequestView};
use crate::datum::{res_view, views};
use crate::event::{EventEnvelopeView, RuntimeEventView};
use crate::id::ThreadId;
use crate::json::{json_parse, json_text, member, Json, JsonView};
use crate::protocol::{ReceiptStatus, ToolReceiptView};
use crate::text::{blank, first_index, lemma_first_index, trim_of};
use crate::tui::{
    all_denied, answered, asked, chunks_of, entered, event_line, event_lines, layout, pressed,
    trimmed_logs, turn_shown, wrapped, wrapped_logs, Key, Screen, TuiConfig, UiActionView,
    UiState, UiView,
};
use crate::turn::{RuntimeError, RuntimeErrorView, TurnOutcomeView};
use crate::session::wants_help;

verus! {

// ---------------------------------------------------------------------------
// The server
// ---------------------------------------------------------------------------

/// A response hands on the result as it is, or the code and the message of the error.
pub proof fn law_responses_hand_on_the_result(
    request: JsonView,
    id: JsonView,
    result: Result<JsonView, RpcErrorView>,
)
    requires
        member(request, "id"@) == Some(id),
    ensures
        ({
            &&& reply_of(request, result) matches Some(response)
            &&& member(response, "id"@) == Some(id)
            &&& (result matches Ok(value) ==> member(response, "result"@) == Some(value) && member(
                response,
                "error"@,
            ) is None)
            &&& (result matches Err(error) ==> {
                &&& member(response, "result"@) is None
                &&& member(response, "error"@) matches Some(told)
                &&& member(told, "code"@) == Some(JsonView::Integer(error.code as int))
                &&& member(told, "message"@) == Some(JsonView::Text(error.message))
            })
        }),
{
    reveal_strlit("jsonrpc");
    reveal_strlit("id");
    reveal_strlit("result");
    reveal_strlit("error");
    assert("jsonrpc"@.len() == 7 && "id"@.len() == 2 && "result"@.len() == 6
        && "error"@.len() == 5);
    reveal_strlit("code");
    reveal_strlit("message");
    assert("code"@.len() == 4 && "message"@.len() == 7);
}

/// A line that is no JSON is answered, without an identifier, as a parse error with its message.
pub proof fn law_broken_lines_are_answered(message: Seq<char>)
    ensures
        ({
            let response = malformed_value(message);
            &&& member(response, "id"@) == Some(JsonView::Null)
            &&& member(response, "error"@) matches Some(told)
            &&& member(told, "code"@) == Some(JsonView::Integer(-32700))
            &&& member(told, "message"@) == Some(JsonView::Text(message))
        }),
{
    reveal_strlit("jsonrpc");
    reveal_strlit("id");
    reveal_strlit("error");
    assert("jsonrpc"@.len() == 7 && "id"@.len() == 2 && "error"@.len() == 5);
    reveal_strlit("code");
    reveal_strlit("message");
    assert("code"@.len() == 4 && "message"@.len() == 7);
}

/// A request of another version or without a method is invalid, and a method that is not known is
/// answered so, by name.
pub proof fn law_invalid_requests_are_refused(
    turns: Map<Seq<char>, TurnControlView>,
    request: JsonView,
)
    ensures
        member(request, "jsonrpc"@) != Some(JsonView::Text("2.0"@)) ==> (plan_of(
            turns,
            request,
        ) matches Err(error) && error.code == -32600),
        member(request, "jsonrpc"@) == Some(JsonView::Text("2.0"@)) && !(member(
            request,
            "method"@,
        ) matches Some(JsonView::Text(_))) ==> (plan_of(turns, request) matches Err(error)
            && error.code == -32600),
        ({
            let method = member(request, "method"@)->0->Text_0;
            member(request, "jsonrpc"@) == Some(JsonView::Text("2.0"@)) && (member(
                request,
                "method"@,
            ) matches Some(JsonView::Text(_))) && method != "server/health"@ && method
                != "thread/start"@ && method != "thread/events"@ && method != "thread/recover"@
                && method != "turn/start"@ && method != "turn/status"@ && method != "turn/cancel"@
                ==> (plan_of(turns, request) matches Err(error) && error.code == -32601
                && error.message == "method `"@ + method + "` was not found"@)
        }),
{
}

/// A request is planned as its method says, for the thread or the turn that its parameters name.
pub proof fn law_requests_are_planned_by_their_method(
    turns: Map<Seq<char>, TurnControlView>,
    request: JsonView,
    method: Seq<char>,
    params: JsonView,
)
    requires
        member(request, "jsonrpc"@) == Some(JsonView::Text("2.0"@)),
        member(request, "method"@) == Some(JsonView::Text(method)),
        member(request, "params"@) == Some(params),
    ensures
        ({
            let plan = plan_of(turns, request);
            let thread = member(params, "thread_id"@);
            let turn = member(params, "turn_id"@);
            &&& method == "server/health"@ ==> (plan matches Ok(RpcPlanView::Answer(value))
                && member(value, "status"@) == Some(JsonView::Text("ok"@)))
            &&& method == "thread/start"@ ==> plan == Ok::<RpcPlanView, RpcErrorView>(
                RpcPlanView::StartThread,
            )
            &&& (thread matches Some(JsonView::Text(thread_id)) ==> {
                &&& method == "thread/events"@ ==> (plan matches Ok(RpcPlanView::Events {
                    thread_id: asked,
                    after_sequence,
                }) && asked == thread_id && (member(
                    params,
                    "after_sequence"@,
                ) matches Some(JsonView::Integer(number)) ==> 0 <= number <= u64::MAX
                    ==> after_sequence == Some(number as u64)) && (member(
                    params,
                    "after_sequence"@,
                ) is None ==> after_sequence is None))
                &&& method == "thread/recover"@ ==> plan == Ok::<RpcPlanView, RpcErrorView>(
                    RpcPlanView::Recover { thread_id },
                )
                &&& method == "turn/start"@ ==> plan == Ok::<RpcPlanView, RpcErrorView>(
                    RpcPlanView::StartTurn {
                        thread_id,
                        input: match member(params, "input"@) {
                            Some(JsonView::Text(input)) => Some(input),
                            _ => None,
                        },
                    },
                )
            })
            &&& !(thread matches Some(JsonView::Text(_))) && (method == "thread/events"@ || method
                == "thread/recover"@ || method == "turn/start"@) ==> (plan matches Err(error)
                && error.code == -32602)
            &&& !(turn matches Some(JsonView::Text(_))) && (method == "turn/status"@ || method
                == "turn/cancel"@) ==> (plan matches Err(error) && error.code == -32602)
        }),
{
    reveal_strlit("server/health");
    reveal_strlit("thread/start");
    reveal_strlit("thread/events");
    reveal_strlit("thread/recover");
    reveal_strlit("turn/start");
    reveal_strlit("turn/status");
    reveal_strlit("turn/cancel");
    assert("server/health"@.len() == 13 && "thread/start"@.len() == 12
        && "thread/events"@.len() == 13 && "thread/recover"@.len() == 14
        && "turn/start"@.len() == 10 && "turn/status"@.len() == 11 && "turn/cancel"@.len() == 11);
    assert("server/health"@[0] != "thread/events"@[0]);
    assert("turn/status"@[5] != "turn/cancel"@[5]);
}

/// Whether a value tells the state of a turn: whether it runs, and what it ended with.
pub open spec fn tells_state(value: JsonView, state: TurnRunStateView) -> bool {
    match state {
        TurnRunStateView::Running => member(value, "status"@) == Some(JsonView::Text("running"@)),
        TurnRunStateView::Completed { content } => member(value, "status"@) == Some(
            JsonView::Text("completed"@),
        ) && member(value, "content"@) == Some(JsonView::Text(content)),
        TurnRunStateView::Failed { error } => member(value, "status"@) == Some(
            JsonView::Text("failed"@),
        ) && member(value, "error"@) == Some(JsonView::Text(error)),
        TurnRunStateView::Cancelled => member(value, "status"@) == Some(
            JsonView::Text("cancelled"@),
        ),
    }
}

proof fn lemma_state(state: TurnRunStateView)
    ensures
        tells_state(state_value(state), state),
{
    reveal_strlit("status");
    reveal_strlit("content");
    reveal_strlit("error");
    assert("status"@.len() == 6 && "content"@.len() == 7 && "error"@.len() == 5);
}

/// The status of a turn names its thread and itself, and tells its state. A turn that is not known
/// has none, and a stop is asked for a running turn alone.
pub proof fn law_statuses_tell_the_turn(
    turns: Map<Seq<char>, TurnControlView>,
    request: JsonView,
    params: JsonView,
    turn_id: Seq<char>,
)
    requires
        member(request, "jsonrpc"@) == Some(JsonView::Text("2.0"@)),
        member(request, "params"@) == Some(params),
        member(params, "turn_id"@) == Some(JsonView::Text(turn_id)),
    ensures
        member(request, "method"@) == Some(JsonView::Text("turn/status"@)) ==> {
            &&& plan_of(turns, request) is Ok <==> turns.contains_key(turn_id)
            &&& plan_of(turns, request) matches Ok(plan) ==> {
                &&& plan matches RpcPlanView::Answer(value)
                &&& member(value, "thread_id"@) == Some(
                    JsonView::Text(turns[turn_id].thread_id),
                )
                &&& member(value, "turn_id"@) == Some(JsonView::Text(turn_id))
                &&& member(value, "state"@) matches Some(told)
                &&& tells_state(told, turns[turn_id].state)
            }
        },
        member(request, "method"@) == Some(JsonView::Text("turn/cancel"@)) ==> {
            &&& plan_of(turns, request) is Ok <==> turns.contains_key(turn_id)
                && turns[turn_id].state is Running
            &&& plan_of(turns, request) matches Ok(plan) ==> {
                &&& plan matches RpcPlanView::Cancel { turn_id: stopped, answer }
                &&& stopped == turn_id
                &&& member(answer, "turn_id"@) == Some(JsonView::Text(turn_id))
                &&& member(answer, "cancellation_requested"@) == Some(JsonView::Bool(true))
            }
        },
{
    reveal_strlit("server/health");
    reveal_strlit("thread/start");
    reveal_strlit("thread/events");
    reveal_strlit("thread/recover");
    reveal_strlit("turn/start");
    reveal_strlit("turn/status");
    reveal_strlit("turn/cancel");
    assert("server/health"@.len() == 13 && "thread/start"@.len() == 12
        && "thread/events"@.len() == 13 && "thread/recover"@.len() == 14
        && "turn/start"@.len() == 10 && "turn/status"@.len() == 11 && "turn/cancel"@.len() == 11);
    assert("server/health"@[0] != "thread/events"@[0]);
    assert("turn/status"@[5] != "turn/cancel"@[5]);
    reveal_strlit("thread_id");
    reveal_strlit("turn_id");
    reveal_strlit("state");
    reveal_strlit("cancellation_requested");
    assert("thread_id"@.len() == 9 && "turn_id"@.len() == 7 && "state"@.len() == 5
        && "cancellation_requested"@.len() == 22);
    if turns.contains_key(turn_id) {
        lemma_state(turns[turn_id].state);
    }
}

/// A turn is started where its thread was found and it has an input. The answer names both, and the
/// turn runs from then on; else nothing changes.
pub proof fn law_started_turns_run(
    turns: Map<Seq<char>, TurnControlView>,
    thread_id: Seq<char>,
    found: Result<(), RuntimeErrorView>,
    input: Option<Seq<char>>,
    turn_id: Seq<char>,
    other: Seq<char>,
)
    requires
        other != turn_id,
    ensures
        ({
            let (after, answer) = turn_started(turns, thread_id, found, input, turn_id);
            &&& answer is Ok <==> found is Ok && input is Some
            &&& answer is Err ==> after == turns
            &&& answer matches Ok(value) ==> {
                &&& member(value, "thread_id"@) == Some(JsonView::Text(thread_id))
                &&& member(value, "turn_id"@) == Some(JsonView::Text(turn_id))
                &&& after.contains_key(turn_id)
                &&& after[turn_id].thread_id == thread_id
                &&& after[turn_id].state is Running
                &&& after.contains_key(other) == turns.contains_key(other)
                &&& turns.contains_key(other) ==> after[other] == turns[other]
            }
            &&& found is Err ==> answer->Err_0.code == -32603
            &&& found is Ok && input is None ==> answer->Err_0.code == -32602
        }),
{
    reveal_strlit("thread_id");
    reveal_strlit("turn_id");
    assert("thread_id"@.len() == 9 && "turn_id"@.len() == 7);
}

/// A turn that ended is completed with its content, cancelled, or failed; it stays in its thread,
/// and no other turn changes.
pub proof fn law_ended_turns_tell_how(
    turns: Map<Seq<char>, TurnControlView>,
    turn_id: Seq<char>,
    other: Seq<char>,
    result: Result<TurnOutcomeView, RuntimeErrorView>,
)
    requires
        turns.contains_key(turn_id),
        other != turn_id,
    ensures
        ({
            let after = turn_ended(turns, turn_id, result);
            &&& after[turn_id].thread_id == turns[turn_id].thread_id
            &&& (result matches Ok(outcome) ==> after[turn_id].state == (
            TurnRunStateView::Completed { content: outcome.content }))
            &&& (result matches Err(RuntimeErrorView::Cancelled(_)) <==> after[turn_id].state
                is Cancelled)
            &&& (result is Err && !(result->Err_0 is Cancelled) ==> after[turn_id].state is Failed)
            &&& after.contains_key(other) == turns.contains_key(other)
            &&& turns.contains_key(other) ==> after[other] == turns[other]
        }),
{
}

/// The answer to the start of a thread names it.
pub proof fn law_started_threads_are_named(
    started: Result<ThreadId, RuntimeError>,
    answer: Result<Json, RpcError>,
)
    requires
        call_ensures(thread_started, (started,), answer),
    ensures
        started matches Ok(id) ==> (answer matches Ok(value) && member(value@, "thread_id"@)
            == Some(JsonView::Text(id@))),
        started is Err ==> (answer matches Err(error) && error@.code == -32603),
{
    if started is Ok {
        assert(res_view(started) == Ok::<Seq<char>, RuntimeErrorView>(
            started->Ok_0@,
        ));
        assert(res_view(answer) is Ok);
    } else {
        assert(res_view(answer) is Err);
    }
}

/// The events behind a number are those with a greater one, in their order; without a number all
/// of them are.
pub proof fn law_events_are_selected_by_number(
    events: Seq<EventEnvelopeView>,
    record: EventEnvelopeView,
    after: Option<u64>,
)
    ensures
        events_behind(Seq::empty(), after).len() == 0,
        (after matches Some(number) ==> record.sequence > number) ==> events_behind(
            events.push(record),
            after,
        ) == events_behind(events, after).push(record),
        (after matches Some(number) && record.sequence <= number) ==> events_behind(
            events.push(record),
            after,
        ) == events_behind(events, after),
{
    assert(events.push(record).drop_last() =~= events);
}

// ---------------------------------------------------------------------------
// The terminal
// ---------------------------------------------------------------------------

/// Answers, prepared actions, receipts and ends are shown, with what they say; all other events are
/// not.
pub proof fn law_events_are_shown_with_what_they_say(event: RuntimeEventView)
    ensures
        (event matches RuntimeEventView::AssistantMessage { content, .. } ==> content.len() > 0
            ==> event_line(event) == Some("assistant: "@ + content)),
        (event matches RuntimeEventView::AssistantMessage { content, tool_calls, .. }
            ==> content.len() == 0 && tool_calls.len() == 0 ==> event_line(event) is None),
        (event matches RuntimeEventView::AssistantMessage { content, tool_calls, .. }
            ==> content.len() == 0 && tool_calls.len() == 1 ==> event_line(event) == Some(
            "assistant requested: "@ + tool_calls[0].name,
        )),
        (event matches RuntimeEventView::ToolPrepared { prepared } ==> event_line(event) == Some(
            "prepared "@ + prepared.action.tool_name + ": "@ + json_text(
                prepared.action.arguments,
            ),
        )),
        (event matches RuntimeEventView::TurnFailed { error } ==> event_line(event) == Some(
            "turn failed: "@ + error,
        )),
        event is TurnCancelled ==> event_line(event) == Some("turn cancelled"@),
        event is UserMessage || event is TurnStarted || event is TurnCompleted || event
            is ModelRequestStarted || event is ContextCompiled || event is ApprovalRequested
            || event is ApprovalResolved || event is ToolExecutionStarted || event is HookFailed
            || event is ThreadStarted ==> event_line(event) is None,
{
}

/// A receipt is shown with its tool, how it ended, and its output, or its error where it has none.
pub proof fn law_receipts_are_shown_with_their_end(receipt: ToolReceiptView)
    ensures
        ({
            let status = match receipt.status {
                ReceiptStatus::Succeeded => "ok"@,
                ReceiptStatus::Failed => "failed"@,
                ReceiptStatus::Denied => "denied"@,
                ReceiptStatus::Unknown => "unknown"@,
            };
            let detail = match receipt.output {
                Some(output) => json_text(output),
                None => match receipt.error {
                    Some(error) => error,
                    None => Seq::empty(),
                },
            };
            event_line(RuntimeEventView::ToolReceiptRecorded { receipt }) == Some(
                "tool "@ + receipt.tool_name + " ["@ + status + "]: "@ + detail,
            )
        }),
{
}

/// Events are shown in their order, one line for each that is shown.
pub proof fn law_event_lines_keep_their_order(
    events: Seq<RuntimeEventView>,
    event: RuntimeEventView,
)
    ensures
        event_lines(Seq::empty()).len() == 0,
        event_lines(events.push(event)) == (match event_line(event) {
            Some(line) => event_lines(events).push(line),
            None => event_lines(events),
        }),
{
    assert(events.push(event).drop_last() =~= events);
}

/// An input that is entered starts a turn with its text, unless it is blank, a command, or a turn
/// runs already. The input line is empty afterwards.
pub proof fn law_inputs_start_turns(state: UiView)
    ensures
        ({
            let (after, action) = entered(state);
            let input = trim_of(state.input);
            let command = input == "/quit"@ || input == "/exit"@ || input == "/cancel"@;
            &&& after.input.len() == 0
            &&& action is Start <==> input.len() > 0 && !command && !state.running
            &&& (action matches UiActionView::Start(text) ==> text == input && after.running
                && after.cancellable && after.logs == state.logs.push("you: "@ + input))
            &&& action is Quit <==> input == "/quit"@ || input == "/exit"@
            &&& action is Cancel <==> input == "/cancel"@ && state.cancellable
            &&& after.thread_id == state.thread_id
            &&& after.current_approval == state.current_approval
            &&& after.queued_approvals == state.queued_approvals
        }),
{
    reveal_strlit("/quit");
    reveal_strlit("/exit");
    reveal_strlit("/cancel");
    assert("/quit"@.len() == 5 && "/exit"@.len() == 5 && "/cancel"@.len() == 7);
    assert("/quit"@[1] != "/exit"@[1]);
}

/// A character is added to the input, and a backspace takes the last one off. While an approval is
/// shown, neither does anything.
pub proof fn law_keys_edit_the_input(state: UiView, c: char, maximum: nat)
    ensures
        ({
            let (typed, nothing) = pressed(state, Key::Char(c), false, maximum);
            let (erased, none) = pressed(state, Key::Backspace, false, maximum);
            &&& state.current_approval is None ==> typed.input == state.input.push(c)
                && nothing is Nothing && none is Nothing
            &&& state.current_approval is None && state.input.len() > 0 ==> erased.input
                == state.input.drop_last()
            &&& state.current_approval is Some ==> typed.input == state.input && erased == state
        }),
{
}

/// An approval is given by a yes and denied by a no or by leaving; nothing else decides it. A denial
/// says where it was given.
pub proof fn law_approvals_are_decided_by_key(
    state: UiView,
    request: ApprovalRequestView,
    key: Key,
    maximum: nat,
)
    requires
        state.current_approval == Some(request),
    ensures
        ({
            let (after, action) = pressed(state, key, false, maximum);
            let yes = key == Key::Char('y') || key == Key::Char('Y');
            let no = key == Key::Char('n') || key == Key::Char('N') || key == Key::Esc;
            &&& yes ==> action == UiActionView::Decide(
                ApprovalDecisionView::Approved { action: request.action },
            )
            &&& no ==> action == UiActionView::Decide(
                ApprovalDecisionView::Denied { reason: "denied in TUI"@ },
            )
            &&& !yes && !no ==> action is Nothing && after == state
            &&& yes ==> after.logs == state.logs.push("approved: "@ + request.action.tool_name)
            &&& no ==> after.logs == state.logs.push("denied: "@ + request.action.tool_name)
        }),
{
}

/// A turn that ended is shown with what it came to, and another one can be started.
pub proof fn law_ended_turns_are_shown(state: UiView, text: Seq<char>)
    ensures
        ({
            let completed = turn_shown(state, Ok(text));
            let failed = turn_shown(state, Err(text));
            &&& completed.logs == state.logs.push("turn complete: "@ + text)
            &&& failed.logs == state.logs.push("turn failed: "@ + text)
            &&& !completed.running && !failed.running
            &&& !completed.cancellable && !failed.cancellable
            &&& completed.input == state.input && failed.input == state.input
        }),
{
}

/// A question is shown at once where none is, and waits behind the others where one is.
pub proof fn law_questions_wait_their_turn(state: UiView, request: ApprovalRequestView)
    ensures
        state.current_approval is None ==> asked(state, request).current_approval == Some(request)
            && asked(state, request).queued_approvals == state.queued_approvals,
        state.current_approval is Some ==> asked(state, request).current_approval
            == state.current_approval && asked(state, request).queued_approvals
            == state.queued_approvals.push(request),
        asked(state, request).logs == state.logs,
{
}

/// When everything is denied, each question that was open is, and none is left.
pub proof fn law_every_question_is_denied(state: UiView)
    requires
        state.current_approval is None ==> state.queued_approvals.len() == 0,
    ensures
        ({
            let (after, count) = all_denied(state);
            &&& after.current_approval is None
            &&& after.queued_approvals.len() == 0
            &&& count == state.queued_approvals.len() + if state.current_approval is Some {
                1nat
            } else {
                0
            }
        }),
    decreases
            state.queued_approvals.len() + (if state.current_approval is Some {
                1nat
            } else {
                0
            }),
{
    if state.current_approval is Some {
        law_every_question_is_denied(answered(state, false).0);
    }
}

/// The newest lines of the log are kept, up to the maximum.
pub proof fn law_the_newest_lines_are_kept(state: UiView, maximum: nat)
    ensures
        ({
            let kept = trimmed_logs(state, maximum).logs;
            &&& state.logs.len() <= maximum ==> kept == state.logs
            &&& state.logs.len() > maximum ==> kept.len() == maximum && kept == state.logs.skip(
                state.logs.len() - maximum,
            )
        }),
{
}

proof fn lemma_chunks(piece: Seq<char>, width: nat)
    requires
        width > 0,
    ensures
        chunks_of(piece, width).len() > 0,
        forall|i: int|
            0 <= i < chunks_of(piece, width).len() - 1 ==> (#[trigger] chunks_of(
                piece,
                width,
            )[i]).len() == width,
    decreases piece.len(),
{
    if piece.len() > width {
        let rest = piece.skip(width as int);
        lemma_chunks(rest, width);
        let all = chunks_of(piece, width);
        let others = chunks_of(rest, width);
        assert(all =~= seq![piece.take(width as int)] + others);
        assert forall|i: int| 0 <= i < all.len() - 1 implies (#[trigger] all[i]).len() == width by {
            if i > 0 {
                assert(all[i] == others[i - 1]);
            }
        }
    }
}

/// A line is cut only where it is full: each of its rows but the last has the whole width.
pub proof fn law_rows_are_full_before_they_are_cut(line: Seq<char>, width: nat, index: int)
    requires
        width > 0,
        !line.contains('\n'),
        0 <= index < wrapped(line, width).len() - 1,
    ensures
        wrapped(line, width)[index].len() == width,
{
    lemma_first_index(line, '\n');
    let end = first_index(line, '\n');
    if end < line.len() {
        assert(line[end] == '\n');
        assert(line.contains('\n'));
    }
    lemma_chunks(line, width);
}

/// The log is wrapped line by line, in its order.
pub proof fn law_logs_are_wrapped_in_order(logs: Seq<Seq<char>>, line: Seq<char>, width: nat)
    ensures
        wrapped_logs(Seq::empty(), width).len() == 0,
        wrapped_logs(logs.push(line), width) == wrapped_logs(logs, width) + wrapped(line, width),
{
    assert(logs.push(line).drop_last() =~= logs);
}

/// The screen shows the title and the thread, the newest rows of the log that there is room for,
/// the action of the question that is open, whether a turn runs, and the input.
pub proof fn law_screens_show_the_state(
    state: UiState,
    config: TuiConfig,
    width: u16,
    height: u16,
    screen: Screen,
)
    requires
        call_ensures(layout, (&state, &config, width, height), screen),
        width >= 20,
        height >= 8,
    ensures
        ({
            let rows = views(screen.lines@);
            let all = wrapped_logs(state@.logs, (width - 2) as nat);
            let room = if state@.current_approval is Some {
                height - 8
            } else {
                height - 4
            };
            &&& screen.header@ == config@.title + "  ["@ + state@.thread_id + "]"@
            &&& all.len() <= room ==> rows == all
            &&& all.len() > room ==> rows == all.skip(all.len() - room)
            &&& (state@.current_approval matches Some(request) ==> (screen.approval matches Some(
                (tool, action),
            ) && tool@ == request.action.tool_name && action@ == json_text(
                request.action.arguments,
            )))
            &&& state@.current_approval is None ==> screen.approval is None
            &&& state@.running ==> screen.status@ == "status: "@ + "running"@
            &&& !state@.running ==> screen.status@ == "status: "@ + "ready"@
            &&& screen.prompt@ == "> "@ + state@.input
            &&& screen.prompt_row == height - 1
            &&& screen.status_row == height - 2
        }),
{
}

/// A line is passed over where it is blank, answered where it is no JSON, and else it is the request
/// that it denotes.
pub proof fn law_lines_are_read_as_requests(line: &str, read: ServerLine)
    requires
        call_ensures(read_line, (line,), read),
    ensures
        read is Blank <==> blank(line@),
        read matches ServerLine::Request(request) ==> json_parse(line@) == Ok::<
            JsonView,
            Seq<char>,
        >(request@),
        read matches ServerLine::Malformed(response) ==> json_parse(line@) is Err && member(
            response@,
            "id"@,
        ) == Some(JsonView::Null),
        !blank(line@) ==> (read is Request <==> json_parse(line@) is Ok),
{
    reveal_strlit("jsonrpc");
    reveal_strlit("id");
    reveal_strlit("error");
    assert("jsonrpc"@.len() == 7 && "id"@.len() == 2 && "error"@.len() == 5);
}

/// Help is asked for by its word or by its letter, wherever they stand.
pub proof fn law_help_is_asked_for_anywhere(arguments: Vec<String>, yes: bool)
    requires
        call_ensures(wants_help, (&arguments,), yes),
    ensures
        yes <==> exists|i: int|
            0 <= i < arguments@.len() && ((#[trigger] arguments@[i])@ == "--help"@
                || arguments@[i]@ == "-h"@),
{
    let words = views(arguments@);
    assert(words.len() == arguments@.len());
    assert forall|i: int| 0 <= i < arguments@.len() implies words[i] == (
    #[trigger] arguments@[i])@ by {}
    if words.contains("--help"@) {
        let i = choose|i: int| 0 <= i < words.len() && words[i] == "--help"@;
        assert(arguments@[i]@ == "--help"@);
    }
    if words.contains("-h"@) {
        let i = choose|i: int| 0 <= i < words.len() && words[i] == "-h"@;
        assert(arguments@[i]@ == "-h"@);
    }
}

/// A response names its protocol, whether it hands on a result or an error.
pub proof fn law_responses_name_their_protocol(
    request: JsonView,
    id: JsonView,
    result: Result<JsonView, RpcErrorView>,
)
    requires
        member(request, "id"@) == Some(id),
    ensures
        reply_of(request, result) matches Some(response) && member(response, "jsonrpc"@) == Some(
            JsonView::Text("2.0"@),
        ),
{
    reveal_strlit("jsonrpc");
    reveal_strlit("id");
    reveal_strlit("result");
    reveal_strlit("error");
    assert("jsonrpc"@.len() == 7 && "id"@.len() == 2 && "result"@.len() == 6
        && "error"@.len() == 5);
}

} // verus!
