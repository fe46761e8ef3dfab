//! What each step of a turn says and does.

use vstd::prelude::*;

use crate::approval::ApprovalDecisionView;
use crate::context::CompiledContextView;
use crate::event::RuntimeEventView;
use crate::hook::HookErrorView;
use crate::model::{ModelErrorView, ModelResponseView, StopReason};
use crate::policy::{projected_access, Access};
use crate::protocol::{
    equal_actions, CanonicalActionView, PreparedToolCallView, ReceiptStatus, ToolCallView,
    ToolReceiptView, TranscriptMessageView,
};
use crate::text::blank;
use crate::tool::{ToolErrorView, ToolOutputView};
use crate::turn::{
    advanced, calls_fault, new_turn, pending_action, transcript_of, ActionView, EndingView,
    PhaseView, ReplyView, RuntimeErrorView, TurnFrameView, TurnView,
};

verus! {

/// Whether an event tells a message of the conversation.
pub open spec fn tells_message(event: RuntimeEventView) -> bool {
    event is UserMessage || event is AssistantMessage || event is ToolReceiptRecorded
}

/// How many events tell a message.
pub open spec fn messages_told(events: Seq<RuntimeEventView>) -> nat
    decreases events.len(),
{
    if events.len() == 0 {
        0
    } else {
        messages_told(events.drop_last()) + if tells_message(events.last()) {
            1nat
        } else {
            0
        }
    }
}

/// The transcript of a thread has, for each user message its content, for each message of
/// the assistant its content and its tool calls, and for each receipt that receipt, in the
/// order of the events and nothing else.
pub proof fn law_transcript_is_the_conversation(events: Seq<RuntimeEventView>)
    ensures
        transcript_of(events).len() == messages_told(events),
        forall|i: int|
            0 <= i < events.len() && tells_message(#[trigger] events[i]) ==> {
                let place = messages_told(events.take(i)) as int;
                &&& place < transcript_of(events).len()
                &&& (events[i] matches RuntimeEventView::UserMessage { content }
                    ==> transcript_of(events)[place] == TranscriptMessageView::User { content })
                &&& (events[i] matches RuntimeEventView::AssistantMessage {
                    content,
                    tool_calls,
                    ..
                } ==> transcript_of(events)[place] == TranscriptMessageView::Assistant {
                    content,
                    tool_calls,
                })
                &&& (events[i] matches RuntimeEventView::ToolReceiptRecorded { receipt }
                    ==> transcript_of(events)[place] == TranscriptMessageView::Tool { receipt })
            },
    decreases events.len(),
{
    if events.len() > 0 {
        let front = events.drop_last();
        law_transcript_is_the_conversation(front);
        assert forall|i: int|
            0 <= i < events.len() && tells_message(#[trigger] events[i]) implies {
            let place = messages_told(events.take(i)) as int;
            &&& place < transcript_of(events).len()
            &&& (events[i] matches RuntimeEventView::UserMessage { content }
                ==> transcript_of(events)[place] == TranscriptMessageView::User { content })
            &&& (events[i] matches RuntimeEventView::AssistantMessage { content, tool_calls, .. }
                ==> transcript_of(events)[place] == TranscriptMessageView::Assistant {
                content,
                tool_calls,
            })
            &&& (events[i] matches RuntimeEventView::ToolReceiptRecorded { receipt }
                ==> transcript_of(events)[place] == TranscriptMessageView::Tool { receipt })
        } by {
            if i < front.len() {
                assert(front[i] == events[i]);
                assert(front.take(i) =~= events.take(i));
            } else {
                assert(events.take(i) =~= front);
            }
        }
    }
}

/// Two threads have the same transcript only where they tell the same messages: an answer
/// with another content or other calls, or another receipt, shows in the transcript.
pub proof fn law_transcripts_tell_messages_apart(
    events: Seq<RuntimeEventView>,
    one: RuntimeEventView,
    other: RuntimeEventView,
)
    requires
        tells_message(one),
        tells_message(other),
        transcript_of(events.push(one)) == transcript_of(events.push(other)),
    ensures
        ({
            match one {
                RuntimeEventView::UserMessage { content } => other == (
                RuntimeEventView::UserMessage { content }),
                RuntimeEventView::AssistantMessage { content, tool_calls, .. } => other is AssistantMessage
                    && other->AssistantMessage_content == content && other->tool_calls == tool_calls,
                _ => other == one,
            }
        }),
{
    assert(events.push(one).drop_last() =~= events);
    assert(events.push(other).drop_last() =~= events);
    let base = transcript_of(events);
    assert(transcript_of(events.push(one)).last() == transcript_of(events.push(other)).last());
}

/// The answer of the model goes on record as it came, unless its calls are refused or the
/// turn is cancelled meanwhile: the event that is made durable has its content, its calls,
/// its stop reason and its usage, and the message that the turn adds for it has the same
/// content and calls.
pub proof fn law_answers_are_recorded_as_they_came(
    turn: TurnView,
    response: ModelResponseView,
    cancelled: bool,
)
    requires
        turn.phase == (PhaseView::Weighing { answer: Ok(response) }),
        calls_fault(response.tool_calls, turn.seen) is None,
    ensures
        ({
            let weighed = advanced(turn, ReplyView::Polled(cancelled));
            let told = advanced(weighed, ReplyView::Persisted(Ok(())));
            &&& pending_action(weighed) == ActionView::Persist(
                RuntimeEventView::AssistantMessage {
                    content: response.content,
                    tool_calls: response.tool_calls,
                    stop_reason: response.stop_reason,
                    usage: response.usage,
                },
            )
            &&& told.transcript == turn.transcript.push(
                TranscriptMessageView::Assistant {
                    content: response.content,
                    tool_calls: response.tool_calls,
                },
            )
        }),
{
}

/// What a completed turn hands back is the content of the last answer, and it is durable
/// under that content.
pub proof fn law_completed_turns_hand_back_the_answer(
    turn: TurnView,
    response: ModelResponseView,
)
    requires
        turn.phase == (PhaseView::RecordingAnswer { response, cancelled: false }),
        response.stop_reason == StopReason::EndTurn,
        response.tool_calls.len() == 0,
    ensures
        ({
            let told = advanced(turn, ReplyView::Persisted(Ok(())));
            let done = advanced(told, ReplyView::Persisted(Ok(())));
            &&& pending_action(told) == ActionView::Persist(
                RuntimeEventView::TurnCompleted { content: response.content },
            )
            &&& pending_action(done) matches ActionView::Finish(Ok(outcome))
            &&& outcome.content == response.content
            &&& outcome.thread_id == turn.frame.thread_id
            &&& outcome.turn_id == turn.frame.turn_id
            &&& turn.iteration < usize::MAX ==> outcome.model_iterations == turn.iteration + 1
        }),
{
}

/// What the user says is durable before the thread is loaded, word for word.
pub proof fn law_the_input_is_recorded_as_it_came(frame: TurnFrameView, input: Seq<char>)
    ensures
        ({
            let started = new_turn(frame, input);
            let greeting = advanced(started, ReplyView::Persisted(Ok(())));
            let loading = advanced(greeting, ReplyView::Persisted(Ok(())));
            &&& pending_action(started) == ActionView::Persist(RuntimeEventView::TurnStarted)
            &&& pending_action(greeting) == ActionView::Persist(
                RuntimeEventView::UserMessage { content: input },
            )
            &&& pending_action(loading) == ActionView::LoadThread
        }),
{
}

/// The request to the model is what was compiled for it, with the visible tools, under the
/// ids of the turn and the number of the round.
pub proof fn law_the_model_is_asked_what_was_compiled(
    turn: TurnView,
    compiled: CompiledContextView,
)
    requires
        turn.phase is Compiling,
    ensures
        ({
            let checking = advanced(turn, ReplyView::Compiled(Ok(compiled)));
            let recording = advanced(checking, ReplyView::Checked(Ok(())));
            let requesting = advanced(recording, ReplyView::Persisted(Ok(())));
            let asking = advanced(requesting, ReplyView::Persisted(Ok(())));
            &&& pending_action(checking) matches ActionView::CheckModel { compiled: shown, .. }
            &&& shown == compiled
            &&& pending_action(requesting) == ActionView::Persist(
                RuntimeEventView::ModelRequestStarted { iteration: turn.iteration },
            )
            &&& pending_action(asking) matches ActionView::AskModel(request)
            &&& request.context == compiled
            &&& request.tools == turn.frame.visible_tools
            &&& request.thread_id == turn.frame.thread_id
            &&& request.turn_id == turn.frame.turn_id
            &&& request.iteration == turn.iteration
        }),
{
}

/// The receipt of an execution is that of the prepared call, and tells what the tool told: a
/// success with its output, an unknown outcome as unknown, and any other failure as failed.
/// It is durable, and the conversation goes on with it.
pub proof fn law_receipts_tell_what_the_tool_told(
    turn: TurnView,
    calls: Seq<ToolCallView>,
    index: nat,
    prepared: PreparedToolCallView,
    outcome: Result<ToolOutputView, ToolErrorView>,
)
    requires
        turn.phase == (PhaseView::Executing { calls, index, prepared }),
    ensures
        pending_action(turn) == ActionView::Execute(prepared),
        ({
            let recording = advanced(turn, ReplyView::Executed(outcome));
            let told = advanced(recording, ReplyView::Persisted(Ok(())));
            &&& pending_action(recording) matches ActionView::Persist(
                RuntimeEventView::ToolReceiptRecorded { receipt },
            )
            &&& receipt.call_id == prepared.call_id
            &&& receipt.tool_name == prepared.action.tool_name
            &&& receipt.action == Some(prepared.action)
            &&& match outcome {
                Ok(output) => receipt.status == ReceiptStatus::Succeeded && receipt.output == Some(
                    output.value,
                ) && receipt.error is None,
                Err(ToolErrorView::OutcomeUnknown(_)) => receipt.status == ReceiptStatus::Unknown
                    && receipt.output is None && receipt.error is Some,
                Err(_) => receipt.status == ReceiptStatus::Failed && receipt.output is None
                    && receipt.error is Some,
            }
            &&& told.transcript == turn.transcript.push(TranscriptMessageView::Tool { receipt })
            &&& pending_action(told) matches ActionView::CheckReceipt { receipt: shown, .. }
            &&& shown == receipt
        }),
{
}

/// A call that is closed without being executed gets a receipt under its own id and name,
/// without an output, and the conversation goes on with it.
pub proof fn law_closed_calls_get_their_own_receipt(
    turn: TurnView,
    calls: Seq<ToolCallView>,
    index: nat,
    reason: Seq<char>,
    ending: EndingView,
)
    requires
        turn.phase == (PhaseView::Denying { calls, index, reason, ending }),
        index < calls.len(),
    ensures
        pending_action(turn) matches ActionView::Persist(
            RuntimeEventView::ToolReceiptRecorded { receipt },
        ) && receipt.call_id == calls[index as int].id && receipt.tool_name
            == calls[index as int].name && receipt.status == ReceiptStatus::Denied
            && receipt.action is None && receipt.output is None && receipt.error == Some(reason)
            && advanced(turn, ReplyView::Persisted(Ok(()))).transcript == turn.transcript.push(
            TranscriptMessageView::Tool { receipt },
        ),
{
}

/// The first call of an answer that has not come to its end is looked at alone: one whose
/// tool is not registered or not granted gets a denial, and any other is prepared as it was
/// asked for.
pub proof fn law_calls_are_prepared_as_they_were_asked(
    turn: TurnView,
    calls: Seq<ToolCallView>,
    index: nat,
)
    requires
        turn.phase == (PhaseView::Approaching { calls, index }),
        index < calls.len(),
    ensures
        ({
            let call = calls[index as int];
            let next = advanced(turn, ReplyView::Polled(false));
            let open = turn.frame.registered.contains(call.name) && projected_access(
                turn.frame.capabilities,
                call.name,
            ) != Access::Deny;
            &&& open ==> pending_action(next) == (ActionView::Prepare { call })
            &&& !open ==> (pending_action(next) matches ActionView::Persist(
                RuntimeEventView::ToolReceiptRecorded { receipt },
            ) && receipt.call_id == call.id && receipt.tool_name == call.name && receipt.status
                == ReceiptStatus::Denied && receipt.output is None)
            &&& next.transcript == turn.transcript
        }),
{
}

/// A preparation that failed, or that changed the id or the name of the call, is closed as
/// failed under the id and the name of the call. Any other goes on record as it is.
pub proof fn law_preparations_keep_the_call(
    turn: TurnView,
    calls: Seq<ToolCallView>,
    index: nat,
    prepared: Result<PreparedToolCallView, ToolErrorView>,
)
    requires
        turn.phase == (PhaseView::Preparing { calls, index }),
        index < calls.len(),
    ensures
        ({
            let call = calls[index as int];
            let next = advanced(turn, ReplyView::Prepared(prepared));
            let kept = prepared matches Ok(found) && found.call_id == call.id
                && found.action.tool_name == call.name;
            &&& kept ==> pending_action(next) == ActionView::Persist(
                RuntimeEventView::ToolPrepared { prepared: prepared->Ok_0 },
            )
            &&& !kept ==> (pending_action(next) matches ActionView::Persist(
                RuntimeEventView::ToolReceiptRecorded { receipt },
            ) && receipt.call_id == call.id && receipt.tool_name == call.name && receipt.status
                == ReceiptStatus::Failed && receipt.action is None && receipt.output is None
                && receipt.error is Some)
        }),
{
}

/// The question for an approval shows the prepared action of the call, under the ids of the
/// turn; what was decided is durable under the id of the call; and a call that was not let
/// through is closed as denied with its action.
pub proof fn law_questions_show_the_prepared_action(
    turn: TurnView,
    calls: Seq<ToolCallView>,
    index: nat,
    prepared: PreparedToolCallView,
    decision: ApprovalDecisionView,
)
    requires
        turn.phase == (PhaseView::RecordingQuestion { calls, index, prepared }),
        index < calls.len(),
    ensures
        ({
            let call = calls[index as int];
            let asking = advanced(turn, ReplyView::Persisted(Ok(())));
            let deciding = advanced(asking, ReplyView::Decided(Ok(decision)));
            let next = advanced(deciding, ReplyView::Persisted(Ok(())));
            &&& pending_action(asking) matches ActionView::RequestApproval(request)
            &&& pending_action(turn) == ActionView::Persist(
                RuntimeEventView::ApprovalRequested { request },
            )
            &&& request.thread_id == turn.frame.thread_id
            &&& request.turn_id == turn.frame.turn_id
            &&& request.call_id == call.id
            &&& request.action == prepared.action
            &&& pending_action(deciding) == ActionView::Persist(
                RuntimeEventView::ApprovalResolved { call_id: call.id, decision },
            )
            &&& (decision matches ApprovalDecisionView::Denied { reason } ==> (pending_action(
                next,
            ) matches ActionView::Persist(RuntimeEventView::ToolReceiptRecorded { receipt })
                && receipt.call_id == call.id && receipt.tool_name == call.name && receipt.status
                == ReceiptStatus::Denied && receipt.action == Some(prepared.action)
                && receipt.error == Some(reason)))
        }),
{
}

/// An answer that was recorded completes the turn where it ends and asks for nothing, goes
/// on with its first call where it stops for tools and asks for some, and fails the turn in
/// every other case, after its calls are closed.
pub proof fn law_answers_complete_or_ask(turn: TurnView, response: ModelResponseView)
    requires
        turn.phase == (PhaseView::RecordingAnswer { response, cancelled: false }),
    ensures
        ({
            let next = advanced(turn, ReplyView::Persisted(Ok(())));
            let calls = response.tool_calls;
            let ends = response.stop_reason == StopReason::EndTurn && calls.len() == 0;
            let asks = response.stop_reason == StopReason::ToolUse && calls.len() > 0;
            &&& ends <==> next.phase is Completing
            &&& asks <==> next.phase is Approaching
            &&& asks ==> next.phase == (PhaseView::Approaching { calls, index: 0 })
            &&& !ends && !asks ==> {
                let ending = if calls.len() > 0 {
                    next.phase->ending
                } else {
                    EndingView::Fail { reason: next.phase->Failing_reason, error: next.phase->error }
                };
                &&& (calls.len() > 0 ==> next.phase is Denying && next.phase->Denying_calls == calls
                    && next.phase->Denying_index == 0)
                &&& (calls.len() == 0 ==> next.phase is Failing)
                &&& ending matches EndingView::Fail { error, .. }
                &&& error matches RuntimeErrorView::InvalidModelResponse { turn_id, .. }
                &&& turn_id == turn.frame.turn_id
            }
        }),
{
}

/// An answer of a turn that was cancelled meanwhile is recorded, its calls are closed one by
/// one, and the turn ends as cancelled.
pub proof fn law_cancelled_answers_are_closed(turn: TurnView, response: ModelResponseView)
    requires
        turn.phase == (PhaseView::RecordingAnswer { response, cancelled: true }),
    ensures
        ({
            let next = advanced(turn, ReplyView::Persisted(Ok(())));
            &&& (response.tool_calls.len() == 0 ==> next.phase is Cancelling)
            &&& (response.tool_calls.len() > 0 ==> next.phase is Denying
                && next.phase->Denying_calls == response.tool_calls && next.phase->Denying_index == 0
                && next.phase->ending is Cancel)
        }),
{
}

/// A call whose turn was cancelled is not prepared: it and those behind it are closed, none
/// left out, before the turn ends as it was to end.
pub proof fn law_closing_leaves_no_call_out(
    turn: TurnView,
    calls: Seq<ToolCallView>,
    index: nat,
    reason: Seq<char>,
    ending: EndingView,
)
    requires
        index < calls.len(),
    ensures
        turn.phase == (PhaseView::Approaching { calls, index }) ==> {
            let next = advanced(turn, ReplyView::Polled(true));
            &&& next.phase is Denying
            &&& next.phase->Denying_calls == calls
            &&& next.phase->Denying_index == index
            &&& next.phase->ending is Cancel
        },
        turn.phase == (PhaseView::Denying { calls, index, reason, ending }) ==> {
            let next = advanced(turn, ReplyView::Persisted(Ok(())));
            &&& (index + 1 < calls.len() ==> next.phase == (PhaseView::Denying {
                calls,
                index: index + 1,
                reason,
                ending,
            }))
            &&& (index + 1 == calls.len() ==> match ending {
                EndingView::Cancel => next.phase is Cancelling,
                EndingView::Fail { reason: told, error } => next.phase == (PhaseView::Failing {
                    reason: told,
                    error,
                }),
            })
        },
{
}

/// A turn that fails tells why in a durable event and hands back that failure; a cancelled
/// one tells that it was cancelled.
pub proof fn law_ends_are_durable_and_handed_back(turn: TurnView)
    ensures
        turn.phase matches PhaseView::Failing { reason, error } ==> pending_action(turn)
            == ActionView::Persist(RuntimeEventView::TurnFailed { error: reason })
            && pending_action(advanced(turn, ReplyView::Persisted(Ok(())))) == ActionView::Finish(
            Err(error),
        ),
        turn.phase is Cancelling ==> pending_action(turn) == ActionView::Persist(
            RuntimeEventView::TurnCancelled,
        ) && pending_action(advanced(turn, ReplyView::Persisted(Ok(())))) == ActionView::Finish(
            Err(RuntimeErrorView::Cancelled(turn.frame.turn_id)),
        ),
{
}

/// A failed request ends the turn with the failure of the model, or as cancelled where the
/// turn was cancelled meanwhile. Nothing is added to the conversation.
pub proof fn law_failed_requests_end_the_turn(
    turn: TurnView,
    error: ModelErrorView,
    cancelled: bool,
)
    requires
        turn.phase == (PhaseView::Weighing { answer: Err(error) }),
    ensures
        ({
            let next = advanced(turn, ReplyView::Polled(cancelled));
            &&& next.transcript == turn.transcript
            &&& (cancelled ==> next.phase is Cancelling)
            &&& (!cancelled ==> next.phase is Failing && next.phase->error
                == RuntimeErrorView::Model(error))
        }),
{
}

/// The calls of an answer are refused exactly where one has a blank id or a blank name, or
/// where an id occurs twice or was used before in the turn.
pub proof fn law_refused_calls(calls: Seq<ToolCallView>, seen: Seq<Seq<char>>)
    ensures
        calls_fault(calls, seen) is None <==> {
            &&& forall|i: int|
                0 <= i < calls.len() ==> !blank((#[trigger] calls[i]).id) && !blank(calls[i].name)
                    && !seen.contains(calls[i].id)
            &&& forall|i: int, j: int|
                0 <= i < j < calls.len() ==> (#[trigger] calls[i]).id != (#[trigger] calls[j]).id
        },
    decreases calls.len(),
{
    if calls.len() > 0 {
        let first = calls[0];
        let rest = calls.skip(1);
        let known = seen.push(first.id);
        law_refused_calls(rest, known);
        assert forall|i: int| 0 <= i < rest.len() implies #[trigger] rest[i] == calls[i + 1] by {}
        assert forall|id: Seq<char>| #[trigger]
            known.contains(id) <==> seen.contains(id) || id == first.id by {
            if seen.contains(id) {
                let k = choose|k: int| 0 <= k < seen.len() && seen[k] == id;
                assert(known[k] == id);
            }
            if id == first.id {
                assert(known[seen.len() as int] == id);
            }
        }
        let good = {
            &&& forall|i: int|
                0 <= i < calls.len() ==> !blank((#[trigger] calls[i]).id) && !blank(calls[i].name)
                    && !seen.contains(calls[i].id)
            &&& forall|i: int, j: int|
                0 <= i < j < calls.len() ==> (#[trigger] calls[i]).id != (#[trigger] calls[j]).id
        };
        if good {
            assert forall|i: int| 0 <= i < rest.len() implies !blank((#[trigger] rest[i]).id)
                && !blank(rest[i].name) && !known.contains(rest[i].id) by {
                assert(calls[0].id != calls[i + 1].id);
            }
            assert forall|i: int, j: int| 0 <= i < j < rest.len() implies (#[trigger] rest[i]).id
                != (#[trigger] rest[j]).id by {
                assert(calls[i + 1].id != calls[j + 1].id);
            }
        } else if calls_fault(calls, seen) is None {
            assert forall|i: int| 0 <= i < calls.len() implies !blank((#[trigger] calls[i]).id)
                && !blank(calls[i].name) && !seen.contains(calls[i].id) by {
                if i > 0 {
                    assert(rest[i - 1] == calls[i]);
                }
            }
            assert forall|i: int, j: int| 0 <= i < j < calls.len() implies (#[trigger] calls[i]).id
                != (#[trigger] calls[j]).id by {
                assert(rest[j - 1] == calls[j]);
                if i > 0 {
                    assert(rest[i - 1] == calls[i]);
                }
            }
        }
    }
}

/// A turn that looks at a tool asks for an approval where the tool is granted on request
/// only, and starts its execution where it is granted. A hook that refuses has it closed as
/// denied, with its action.
pub proof fn law_access_decides_whether_to_ask(
    turn: TurnView,
    calls: Seq<ToolCallView>,
    index: nat,
    prepared: PreparedToolCallView,
    refusal: HookErrorView,
)
    requires
        turn.phase == (PhaseView::CheckingTool { calls, index, prepared }),
        index < calls.len(),
    ensures
        ({
            let passed = advanced(turn, ReplyView::Checked(Ok(())));
            let refused = advanced(turn, ReplyView::Checked(Err(refusal)));
            let closed = advanced(refused, ReplyView::Persisted(Ok(())));
            let asks = projected_access(turn.frame.capabilities, calls[index as int].name)
                == Access::Ask;
            &&& (asks ==> passed.phase == (PhaseView::RecordingQuestion { calls, index, prepared }))
            &&& (!asks ==> pending_action(passed) == ActionView::Persist(
                RuntimeEventView::ToolExecutionStarted { prepared },
            ) && pending_action(advanced(passed, ReplyView::Persisted(Ok(()))))
                == ActionView::Execute(prepared))
            &&& pending_action(refused) matches ActionView::Persist(
                RuntimeEventView::HookFailed { hook, reason, .. },
            )
            &&& hook == refusal.hook && reason == refusal.reason
            &&& pending_action(closed) matches ActionView::Persist(
                RuntimeEventView::ToolReceiptRecorded { receipt },
            )
            &&& receipt.call_id == calls[index as int].id
            &&& receipt.tool_name == calls[index as int].name
            &&& receipt.status == ReceiptStatus::Denied
            &&& receipt.action == Some(prepared.action)
            &&& receipt.output is None
        }),
{
}

/// An approved action is executed only where the approval names the very action that was
/// prepared.
pub proof fn law_only_exact_approvals_start(
    turn: TurnView,
    calls: Seq<ToolCallView>,
    index: nat,
    prepared: PreparedToolCallView,
    approved: CanonicalActionView,
)
    requires
        turn.phase == (PhaseView::RecordingDecision {
            calls,
            index,
            prepared,
            decision: ApprovalDecisionView::Approved { action: approved },
        }),
        index < calls.len(),
    ensures
        ({
            let next = advanced(turn, ReplyView::Persisted(Ok(())));
            &&& (equal_actions(approved, prepared.action) ==> pending_action(next)
                == ActionView::Persist(RuntimeEventView::ToolExecutionStarted { prepared }))
            &&& (!equal_actions(approved, prepared.action) ==> (pending_action(
                next,
            ) matches ActionView::Persist(RuntimeEventView::ToolReceiptRecorded { receipt })
                && receipt.call_id == calls[index as int].id && receipt.status
                == ReceiptStatus::Denied && receipt.output is None))
        }),
{
}

/// Behind the last call of an answer comes the next round, one up, unless the turn has had
/// all its rounds: then it fails, naming how many it had.
pub proof fn law_rounds_count_up(
    turn: TurnView,
    calls: Seq<ToolCallView>,
    index: nat,
    receipt: ToolReceiptView,
)
    requires
        turn.phase == (PhaseView::CheckingReceipt { calls, index, receipt }),
        turn.iteration < usize::MAX,
    ensures
        ({
            let next = advanced(turn, ReplyView::Checked(Ok(())));
            &&& (index + 1 < calls.len() ==> next.phase == (PhaseView::Approaching {
                calls,
                index: index + 1,
            }) && next.iteration == turn.iteration)
            &&& (index + 1 >= calls.len() ==> next.iteration == turn.iteration + 1 && (
            turn.iteration + 1 < turn.frame.max_model_iterations <==> next.phase is Iterating) && (
            turn.iteration + 1 >= turn.frame.max_model_iterations <==> (next.phase is Failing
                && next.phase->error == (RuntimeErrorView::MaxModelIterations {
                turn_id: turn.frame.turn_id,
                maximum: turn.frame.max_model_iterations,
            }))))
        }),
{
}

/// A receipt of a call that was never started goes to no hook: the turn goes on with the next call,
/// or with the next round.
pub proof fn law_only_executed_calls_are_checked(
    turn: TurnView,
    calls: Seq<ToolCallView>,
    index: nat,
    error: ToolErrorView,
    other: PreparedToolCallView,
)
    requires
        turn.phase == (PhaseView::Preparing { calls, index }),
        index < calls.len(),
        other.call_id != calls[index as int].id || other.action.tool_name != calls[index as int].name,
    ensures
        ({
            let failed = advanced(turn, ReplyView::Prepared(Err(error)));
            let changed = advanced(turn, ReplyView::Prepared(Ok(other)));
            let one = advanced(failed, ReplyView::Persisted(Ok(())));
            let two = advanced(changed, ReplyView::Persisted(Ok(())));
            &&& !(pending_action(one) is CheckReceipt)
            &&& !(pending_action(two) is CheckReceipt)
            &&& one.transcript.len() == turn.transcript.len() + 1
            &&& two.transcript.len() == turn.transcript.len() + 1
        }),
{
}

} // verus!
