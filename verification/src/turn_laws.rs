//! What holds of every turn, whatever the host replies.

use vstd::prelude::*;

use crate::approval::ApprovalDecisionView;
use crate::event::RuntimeEventView;
use crate::policy::{projected_access, Access};
use crate::protocol::{
    equal_actions, PreparedToolCallView, ToolCallView, ToolReceiptView, TranscriptMessageView,
};
use crate::store::StoreErrorView;
use crate::text::blank;
use crate::turn::{
    advanced, answers, calls_fault, events_of, ids_of, message_of, new_turn, pending_action, sound,
    transcript_of, ActionView, EndingView, PhaseView, ReplyView, RuntimeErrorView, TurnFrameView, TurnView,
};

verus! {

// ---------------------------------------------------------------------------
// Runs
// ---------------------------------------------------------------------------

/// A turn together with what it has made durable.
#[verifier::ext_equal]
pub ghost struct RunView {
    pub turn: TurnView,
    /// The durable events of the turn.
    pub log: Seq<RuntimeEventView>,
    /// The transcript of the thread when it was loaded.
    pub base: Seq<TranscriptMessageView>,
    /// How many events of the turn were durable when the thread was loaded.
    pub mark: int,
    pub loaded: bool,
}

/// A run before its first action.
pub open spec fn begun(frame: TurnFrameView, input: Seq<char>) -> RunView {
    RunView {
        turn: new_turn(frame, input),
        log: Seq::empty(),
        base: Seq::empty(),
        mark: 0,
        loaded: false,
    }
}

/// The durable events after a reply.
pub open spec fn logged(run: RunView, reply: ReplyView) -> Seq<RuntimeEventView> {
    match (pending_action(run.turn), reply) {
        (ActionView::Persist(event), ReplyView::Persisted(Ok(()))) => run.log.push(event),
        _ => run.log,
    }
}

/// A run after one more reply.
pub open spec fn taken(run: RunView, reply: ReplyView) -> RunView {
    match reply {
        ReplyView::Loaded(Ok(events)) => RunView {
            turn: advanced(run.turn, reply),
            log: logged(run, reply),
            base: transcript_of(events_of(events)),
            mark: run.log.len() as int,
            loaded: true,
        },
        _ => RunView { turn: advanced(run.turn, reply), log: logged(run, reply), ..run },
    }
}

/// The run that a sequence of replies leads to.
pub open spec fn run_of(frame: TurnFrameView, input: Seq<char>, replies: Seq<ReplyView>) -> RunView
    decreases replies.len(),
{
    if replies.len() == 0 {
        begun(frame, input)
    } else {
        taken(run_of(frame, input, replies.drop_last()), replies.last())
    }
}

/// Whether each reply answers the action that was pending.
pub open spec fn possible(frame: TurnFrameView, input: Seq<char>, replies: Seq<ReplyView>) -> bool
    decreases replies.len(),
{
    replies.len() == 0 || (possible(frame, input, replies.drop_last()) && answers(
        pending_action(run_of(frame, input, replies.drop_last()).turn),
        replies.last(),
    ))
}

proof fn lemma_sound_step(turn: TurnView, reply: ReplyView)
    requires
        sound(turn),
        answers(pending_action(turn), reply),
    ensures
        sound(advanced(turn, reply)),
        advanced(turn, reply).frame == turn.frame,
{
}

/// Every state of a run is sound, and its frame never changes.
pub proof fn lemma_run_is_sound(frame: TurnFrameView, input: Seq<char>, replies: Seq<ReplyView>)
    requires
        possible(frame, input, replies),
    ensures
        sound(run_of(frame, input, replies).turn),
        run_of(frame, input, replies).turn.frame == frame,
    decreases replies.len(),
{
    if replies.len() > 0 {
        lemma_run_is_sound(frame, input, replies.drop_last());
        lemma_sound_step(run_of(frame, input, replies.drop_last()).turn, replies.last());
    }
}

// ---------------------------------------------------------------------------
// Calls and receipts
// ---------------------------------------------------------------------------

/// The identifiers of all calls in durable answers of the model, in their order.
pub open spec fn call_ids(log: Seq<RuntimeEventView>) -> Seq<Seq<char>>
    decreases log.len(),
{
    if log.len() == 0 {
        Seq::empty()
    } else {
        let rest = call_ids(log.drop_last());
        match log.last() {
            RuntimeEventView::AssistantMessage { tool_calls, .. } => rest + ids_of(tool_calls),
            _ => rest,
        }
    }
}

/// The identifiers of all durable receipts, in their order.
pub open spec fn receipt_ids(log: Seq<RuntimeEventView>) -> Seq<Seq<char>>
    decreases log.len(),
{
    if log.len() == 0 {
        Seq::empty()
    } else {
        let rest = receipt_ids(log.drop_last());
        match log.last() {
            RuntimeEventView::ToolReceiptRecorded { receipt } => rest.push(receipt.call_id),
            _ => rest,
        }
    }
}

proof fn lemma_ids_push(log: Seq<RuntimeEventView>, event: RuntimeEventView)
    ensures
        call_ids(log.push(event)) == (match event {
            RuntimeEventView::AssistantMessage { tool_calls, .. } => call_ids(log) + ids_of(
                tool_calls,
            ),
            _ => call_ids(log),
        }),
        receipt_ids(log.push(event)) == (match event {
            RuntimeEventView::ToolReceiptRecorded { receipt } => receipt_ids(log).push(
                receipt.call_id,
            ),
            _ => receipt_ids(log),
        }),
{
    assert(log.push(event).drop_last() =~= log);
}

/// The calls of durable answers that have no receipt yet, where the phase tells.
pub open spec fn open_calls(turn: TurnView) -> Option<Seq<ToolCallView>> {
    match turn.phase {
        PhaseView::Approaching { calls, index } => Some(calls.skip(index as int)),
        PhaseView::Preparing { calls, index } => Some(calls.skip(index as int)),
        PhaseView::RecordingPrepared { calls, index, .. } => Some(calls.skip(index as int)),
        PhaseView::CheckingTool { calls, index, .. } => Some(calls.skip(index as int)),
        PhaseView::RecordingRefusal { calls, index, .. } => Some(calls.skip(index as int)),
        PhaseView::RecordingQuestion { calls, index, .. } => Some(calls.skip(index as int)),
        PhaseView::AwaitingApproval { calls, index, .. } => Some(calls.skip(index as int)),
        PhaseView::RecordingDecision { calls, index, .. } => Some(calls.skip(index as int)),
        PhaseView::RecordingStart { calls, index, .. } => Some(calls.skip(index as int)),
        PhaseView::Executing { calls, index, .. } => Some(calls.skip(index as int)),
        PhaseView::RecordingReceipt { calls, index, .. } => Some(calls.skip(index as int)),
        PhaseView::Denying { calls, index, .. } => Some(calls.skip(index as int)),
        PhaseView::CheckingReceipt { calls, index, .. } => Some(calls.skip(index as int + 1)),
        PhaseView::RecordingHookFailure { .. } => None,
        PhaseView::Failing { error, .. } => if error is Hook {
            None
        } else {
            Some(Seq::empty())
        },
        PhaseView::Finished { result } => match result {
            Ok(_) => Some(Seq::empty()),
            Err(error) => if error is Hook || error is Store || error is ReceiptPersistenceUnknown {
                None
            } else {
                Some(Seq::empty())
            },
        },
        _ => Some(Seq::empty()),
    }
}

/// The current call and the action that it was resolved to, where there is one.
pub open spec fn current(turn: TurnView) -> Option<(ToolCallView, PreparedToolCallView)> {
    match turn.phase {
        PhaseView::RecordingPrepared { calls, index, prepared } => Some(
            (calls[index as int], prepared),
        ),
        PhaseView::CheckingTool { calls, index, prepared } => Some((calls[index as int], prepared)),
        PhaseView::RecordingRefusal { calls, index, prepared, .. } => Some(
            (calls[index as int], prepared),
        ),
        PhaseView::RecordingQuestion { calls, index, prepared } => Some(
            (calls[index as int], prepared),
        ),
        PhaseView::AwaitingApproval { calls, index, prepared } => Some(
            (calls[index as int], prepared),
        ),
        PhaseView::RecordingDecision { calls, index, prepared, .. } => Some(
            (calls[index as int], prepared),
        ),
        PhaseView::RecordingStart { calls, index, prepared } => Some(
            (calls[index as int], prepared),
        ),
        PhaseView::Executing { calls, index, prepared } => Some((calls[index as int], prepared)),
        _ => None,
    }
}

/// Whether an ending leaves the turn with all its calls closed.
spec fn endings_fit(turn: TurnView) -> bool {
    match turn.phase {
        PhaseView::Denying { ending, .. } => match ending {
            EndingView::Fail { error, .. } => error is InvalidModelResponse,
            EndingView::Cancel => true,
        },
        PhaseView::Failing { error, .. } => !(error is Store)
            && !(error is ReceiptPersistenceUnknown) && !(error is Cancelled),
        _ => true,
    }
}

/// Receipts follow the calls one by one and in their order, and no identifier is
/// used twice.
pub open spec fn accounted(run: RunView) -> bool {
    let calls = call_ids(run.log);
    let receipts = receipt_ids(run.log);
    &&& receipts.is_prefix_of(calls)
    &&& open_calls(run.turn) matches Some(open) ==> calls == receipts + ids_of(open)
    &&& current(run.turn) matches Some((call, prepared)) ==> prepared.call_id == call.id
        && prepared.action.tool_name == call.name
    &&& run.turn.phase matches PhaseView::RecordingReceipt { calls: all, index, receipt, .. }
        ==> receipt.call_id == all[index as int].id
    &&& match run.turn.phase {
        PhaseView::RecordingAnswer { response, .. } => run.turn.seen == calls + ids_of(
            response.tool_calls,
        ),
        PhaseView::Finished { .. } => true,
        _ => run.turn.seen == calls,
    }
    &&& run.turn.seen.no_duplicates()
    &&& calls.no_duplicates()
}

proof fn lemma_calls_distinct(calls: Seq<ToolCallView>, seen: Seq<Seq<char>>)
    requires
        calls_fault(calls, seen) is None,
        seen.no_duplicates(),
    ensures
        (seen + ids_of(calls)).no_duplicates(),
    decreases calls.len(),
{
    if calls.len() == 0 {
        assert(seen + ids_of(calls) =~= seen);
    } else {
        let id = calls[0].id;
        assert(seen.push(id).no_duplicates());
        lemma_calls_distinct(calls.skip(1), seen.push(id));
        assert(seen.push(id) + ids_of(calls.skip(1)) =~= seen + ids_of(calls));
    }
}

proof fn lemma_first_open(calls: Seq<ToolCallView>, index: int, receipts: Seq<Seq<char>>)
    requires
        0 <= index < calls.len(),
    ensures
        receipts + ids_of(calls.skip(index)) == receipts.push(calls[index].id) + ids_of(
            calls.skip(index + 1),
        ),
{
    assert(receipts + ids_of(calls.skip(index)) =~= receipts.push(calls[index].id) + ids_of(
        calls.skip(index + 1),
    ));
}

proof fn lemma_no_calls(calls: Seq<ToolCallView>, receipts: Seq<Seq<char>>)
    ensures
        receipts + ids_of(calls.skip(calls.len() as int)) == receipts,
        receipts + ids_of(Seq::empty()) == receipts,
        calls.skip(0) == calls,
{
    assert(receipts + ids_of(calls.skip(calls.len() as int)) =~= receipts);
    assert(receipts + ids_of(Seq::empty()) =~= receipts);
    assert(calls.skip(0) =~= calls);
}

#[verifier::spinoff_prover]
#[verifier::rlimit(60)]
proof fn lemma_accounted_step(run: RunView, reply: ReplyView)
    requires
        sound(run.turn),
        accounted(run),
        endings_fit(run.turn),
        answers(pending_action(run.turn), reply),
    ensures
        accounted(taken(run, reply)),
        endings_fit(taken(run, reply).turn),
{
    let next = taken(run, reply);
    let receipts = receipt_ids(run.log);
    match pending_action(run.turn) {
        ActionView::Persist(event) => {
            lemma_ids_push(run.log, event);
        },
        _ => {},
    }
    lemma_no_calls(Seq::empty(), receipts);
    match run.turn.phase {
        PhaseView::Weighing { answer } => match answer {
            Ok(response) => {
                if calls_fault(response.tool_calls, run.turn.seen) is None {
                    lemma_calls_distinct(response.tool_calls, run.turn.seen);
                }
            },
            Err(_) => {},
        },
        PhaseView::RecordingAnswer { response, .. } => {
            lemma_no_calls(response.tool_calls, receipts);
            assert(ids_of(response.tool_calls).len() == response.tool_calls.len());
            if response.tool_calls.len() == 0 {
                assert(call_ids(run.log) + ids_of(response.tool_calls) =~= call_ids(run.log));
            }
        },
        PhaseView::RecordingReceipt { calls, index, .. } => {
            lemma_first_open(calls, index as int, receipts);
            lemma_no_calls(calls, receipts.push(calls[index as int].id));
        },
        PhaseView::Denying { calls, index, .. } => {
            lemma_first_open(calls, index as int, receipts);
            lemma_no_calls(calls, receipts.push(calls[index as int].id));
        },
        PhaseView::CheckingReceipt { calls, index, .. } => {
            lemma_no_calls(calls, receipts);
        },
        PhaseView::Approaching { calls, index } => {
            lemma_no_calls(calls, receipts);
        },
        _ => {},
    }
}

proof fn lemma_accounted(frame: TurnFrameView, input: Seq<char>, replies: Seq<ReplyView>)
    requires
        possible(frame, input, replies),
    ensures
        accounted(run_of(frame, input, replies)),
        endings_fit(run_of(frame, input, replies).turn),
    decreases replies.len(),
{
    if replies.len() == 0 {
        let run = begun(frame, input);
        lemma_no_calls(Seq::empty(), Seq::empty());
        assert(call_ids(run.log) =~= Seq::empty());
        assert(receipt_ids(run.log) =~= Seq::empty());
    } else {
        let before = replies.drop_last();
        lemma_accounted(frame, input, before);
        lemma_run_is_sound(frame, input, before);
        lemma_accounted_step(run_of(frame, input, before), replies.last());
    }
}

/// Every accepted call gets at most one receipt, receipts come in the order of the
/// calls, and no call identifier is used twice in a turn.
pub proof fn law_receipts_follow_calls(
    frame: TurnFrameView,
    input: Seq<char>,
    replies: Seq<ReplyView>,
)
    requires
        possible(frame, input, replies),
    ensures
        receipt_ids(run_of(frame, input, replies).log).is_prefix_of(
            call_ids(run_of(frame, input, replies).log),
        ),
        call_ids(run_of(frame, input, replies).log).no_duplicates(),
        receipt_ids(run_of(frame, input, replies).log).no_duplicates(),
{
    lemma_accounted(frame, input, replies);
    let run = run_of(frame, input, replies);
    let calls = call_ids(run.log);
    let receipts = receipt_ids(run.log);
    assert forall|i: int, j: int|
        0 <= i < receipts.len() && 0 <= j < receipts.len() && i != j implies receipts[i]
        != receipts[j] by {
        assert(receipts[i] == calls[i] && receipts[j] == calls[j]);
    }
}

/// The model is only asked once every earlier call of the turn has its durable
/// receipt.
pub proof fn law_receipts_before_next_request(
    frame: TurnFrameView,
    input: Seq<char>,
    replies: Seq<ReplyView>,
)
    requires
        possible(frame, input, replies),
        pending_action(run_of(frame, input, replies).turn) is AskModel,
    ensures
        receipt_ids(run_of(frame, input, replies).log) == call_ids(
            run_of(frame, input, replies).log,
        ),
{
    lemma_accounted(frame, input, replies);
    let run = run_of(frame, input, replies);
    assert(run.turn.phase is Asking);
    lemma_no_calls(Seq::empty(), receipt_ids(run.log));
}

/// A turn that completes, is cancelled, runs out of rounds, or is failed because of
/// its context, its model or an invalid answer has closed every accepted call with
/// exactly one receipt.
pub proof fn law_ended_turn_has_closed_its_calls(
    frame: TurnFrameView,
    input: Seq<char>,
    replies: Seq<ReplyView>,
)
    requires
        possible(frame, input, replies),
        run_of(frame, input, replies).turn.phase matches PhaseView::Finished { result } && (
        result matches Err(error) ==> !(error is Hook) && !(error is Store)
            && !(error is ReceiptPersistenceUnknown)),
    ensures
        receipt_ids(run_of(frame, input, replies).log) == call_ids(
            run_of(frame, input, replies).log,
        ),
{
    lemma_accounted(frame, input, replies);
    lemma_no_calls(Seq::empty(), receipt_ids(run_of(frame, input, replies).log));
}

/// Whether every call has an identifier and a name.
pub open spec fn named(calls: Seq<ToolCallView>) -> bool {
    forall|i: int|
        0 <= i < calls.len() ==> !blank((#[trigger] calls[i]).id) && !blank(calls[i].name)
}

/// Whether the calls of an event, if it is an answer of the model, are all named.
pub open spec fn names_calls(event: RuntimeEventView) -> bool {
    event matches RuntimeEventView::AssistantMessage { tool_calls, .. } ==> named(tool_calls)
}

proof fn lemma_faultless_calls_are_named(calls: Seq<ToolCallView>, seen: Seq<Seq<char>>)
    requires
        calls_fault(calls, seen) is None,
    ensures
        named(calls),
    decreases calls.len(),
{
    if calls.len() > 0 {
        let rest = calls.skip(1);
        lemma_faultless_calls_are_named(rest, seen.push(calls[0].id));
        assert forall|i: int| 0 <= i < calls.len() implies !blank((#[trigger] calls[i]).id)
            && !blank(calls[i].name) by {
            if i > 0 {
                assert(rest[i - 1] == calls[i]);
            }
        }
    }
}

proof fn lemma_named(frame: TurnFrameView, input: Seq<char>, replies: Seq<ReplyView>)
    requires
        possible(frame, input, replies),
    ensures
        ({
            let run = run_of(frame, input, replies);
            &&& forall|at: int| 0 <= at < run.log.len() ==> names_calls(#[trigger] run.log[at])
            &&& run.turn.phase matches PhaseView::RecordingAnswer { response, .. } ==> named(
                response.tool_calls,
            )
        }),
    decreases replies.len(),
{
    if replies.len() > 0 {
        let before = replies.drop_last();
        lemma_named(frame, input, before);
        lemma_run_is_sound(frame, input, before);
        let run = run_of(frame, input, before);
        match run.turn.phase {
            PhaseView::Weighing { answer } => match answer {
                Ok(response) => {
                    if calls_fault(response.tool_calls, run.turn.seen) is None {
                        lemma_faultless_calls_are_named(response.tool_calls, run.turn.seen);
                    }
                },
                Err(_) => {},
            },
            _ => {},
        }
    }
}

/// Calls without an identifier or a name never enter the transcript: the answer that holds
/// one fails the turn instead.
pub proof fn law_accepted_calls_are_named(
    frame: TurnFrameView,
    input: Seq<char>,
    replies: Seq<ReplyView>,
    at: int,
)
    requires
        possible(frame, input, replies),
        0 <= at < run_of(frame, input, replies).log.len(),
    ensures
        names_calls(run_of(frame, input, replies).log[at]),
{
    lemma_named(frame, input, replies);
}

// ---------------------------------------------------------------------------
// Executions
// ---------------------------------------------------------------------------

/// Whether an event is the approval of exactly this action.
pub open spec fn approves(event: RuntimeEventView, prepared: PreparedToolCallView) -> bool {
    event matches RuntimeEventView::ApprovalResolved {
        call_id,
        decision: ApprovalDecisionView::Approved { action },
    } && call_id == prepared.call_id && equal_actions(action, prepared.action)
}

/// Whether the event at `at` is the start of an execution that was let through: the
/// tool is registered and granted, and the event in front is the durable preparation
/// of that very action or, where approval is required, the durable approval of it.
pub open spec fn justified(frame: TurnFrameView, log: Seq<RuntimeEventView>, at: int) -> bool {
    log[at] matches RuntimeEventView::ToolExecutionStarted { prepared } ==> {
        let access = projected_access(frame.capabilities, prepared.action.tool_name);
        &&& frame.registered.contains(prepared.action.tool_name)
        &&& access != Access::Deny
        &&& 0 < at
        &&& access == Access::Allow ==> log[at - 1] == (RuntimeEventView::ToolPrepared { prepared })
        &&& access == Access::Ask ==> approves(log[at - 1], prepared)
    }
}

/// What the phase of a turn says of its latest events.
pub open spec fn let_through(run: RunView) -> bool {
    let log = run.log;
    let caps = run.turn.frame.capabilities;
    &&& forall|at: int| 0 <= at < log.len() ==> #[trigger] justified(run.turn.frame, log, at)
    &&& run.turn.phase matches PhaseView::Preparing { calls, index } ==> {
        let name = calls[index as int].name;
        run.turn.frame.registered.contains(name) && projected_access(caps, name) != Access::Deny
    }
    &&& current(run.turn) matches Some((call, prepared)) ==> {
        &&& run.turn.frame.registered.contains(call.name)
        &&& projected_access(caps, call.name) != Access::Deny
        &&& prepared.call_id == call.id
        &&& prepared.action.tool_name == call.name
        &&& match run.turn.phase {
            PhaseView::CheckingTool { .. } => log.len() > 0 && log.last() == (
            RuntimeEventView::ToolPrepared { prepared }),
            PhaseView::RecordingQuestion { .. } => projected_access(caps, call.name) == Access::Ask,
            PhaseView::AwaitingApproval { .. } => projected_access(caps, call.name) == Access::Ask,
            PhaseView::RecordingDecision { .. } => projected_access(caps, call.name) == Access::Ask,
            PhaseView::RecordingStart { .. } => log.len() > 0 && (if projected_access(
                caps,
                call.name,
            ) == Access::Ask {
                approves(log.last(), prepared)
            } else {
                log.last() == (RuntimeEventView::ToolPrepared { prepared })
            }),
            PhaseView::Executing { .. } => log.len() > 0 && log.last() == (
            RuntimeEventView::ToolExecutionStarted { prepared }),
            _ => true,
        }
    }
}

#[verifier::spinoff_prover]
#[verifier::rlimit(60)]
proof fn lemma_let_through_step(run: RunView, reply: ReplyView)
    requires
        sound(run.turn),
        let_through(run),
        answers(pending_action(run.turn), reply),
    ensures
        let_through(taken(run, reply)),
{
    let next = taken(run, reply);
    assert forall|at: int| 0 <= at < next.log.len() implies #[trigger] justified(
        next.turn.frame,
        next.log,
        at,
    ) by {
        if at < run.log.len() {
            assert(justified(run.turn.frame, run.log, at));
            assert(next.log[at] == run.log[at]);
            if at > 0 {
                assert(next.log[at - 1] == run.log[at - 1]);
            }
        }
    }
}

proof fn lemma_let_through(frame: TurnFrameView, input: Seq<char>, replies: Seq<ReplyView>)
    requires
        possible(frame, input, replies),
    ensures
        let_through(run_of(frame, input, replies)),
    decreases replies.len(),
{
    if replies.len() > 0 {
        let before = replies.drop_last();
        lemma_let_through(frame, input, before);
        lemma_run_is_sound(frame, input, before);
        lemma_let_through_step(run_of(frame, input, before), replies.last());
    }
}

/// Nothing is executed without authority. When an execution is asked for, its tool is
/// registered and granted, its start is durable, and right before that start either
/// the preparation of this very action was made durable (where it is allowed) or its
/// exact approval was (where approval is required).
pub proof fn law_execution_is_authorised(
    frame: TurnFrameView,
    input: Seq<char>,
    replies: Seq<ReplyView>,
    prepared: PreparedToolCallView,
)
    requires
        possible(frame, input, replies),
        pending_action(run_of(frame, input, replies).turn) == ActionView::Execute(prepared),
    ensures
        ({
            let log = run_of(frame, input, replies).log;
            &&& log.len() > 0
            &&& log.last() == (RuntimeEventView::ToolExecutionStarted { prepared })
            &&& justified(frame, log, log.len() - 1)
        }),
{
    lemma_let_through(frame, input, replies);
    lemma_run_is_sound(frame, input, replies);
}

/// Every durable start of an execution was authorised.
pub proof fn law_started_executions_are_authorised(
    frame: TurnFrameView,
    input: Seq<char>,
    replies: Seq<ReplyView>,
    at: int,
)
    requires
        possible(frame, input, replies),
        0 <= at < run_of(frame, input, replies).log.len(),
    ensures
        justified(frame, run_of(frame, input, replies).log, at),
{
    lemma_let_through(frame, input, replies);
    lemma_run_is_sound(frame, input, replies);
}

/// The identifiers of all calls whose execution was begun, in the order of the starts.
pub open spec fn started_ids(log: Seq<RuntimeEventView>) -> Seq<Seq<char>>
    decreases log.len(),
{
    if log.len() == 0 {
        Seq::empty()
    } else {
        let rest = started_ids(log.drop_last());
        match log.last() {
            RuntimeEventView::ToolExecutionStarted { prepared } => rest.push(prepared.call_id),
            _ => rest,
        }
    }
}

/// The call whose execution was begun and whose receipt is not durable yet.
pub open spec fn in_flight(turn: TurnView) -> Option<Seq<char>> {
    match turn.phase {
        PhaseView::Executing { calls, index, .. } => Some(calls[index as int].id),
        PhaseView::RecordingReceipt { calls, index, crossed, .. } => if crossed {
            Some(calls[index as int].id)
        } else {
            None
        },
        _ => None,
    }
}

/// Every begun execution has its receipt but the one that is in flight.
pub open spec fn started_once(run: RunView) -> bool {
    let started = started_ids(run.log);
    &&& started.no_duplicates()
    &&& !(run.turn.phase is Finished) ==> forall|id: Seq<char>| #[trigger]
        started.contains(id) ==> receipt_ids(run.log).contains(id) || in_flight(run.turn) == Some(id)
}

#[verifier::spinoff_prover]
#[verifier::rlimit(60)]
proof fn lemma_started_once_step(run: RunView, reply: ReplyView)
    requires
        sound(run.turn),
        accounted(run),
        started_once(run),
        answers(pending_action(run.turn), reply),
    ensures
        started_once(taken(run, reply)),
{
    let next = taken(run, reply);
    let started = started_ids(run.log);
    let receipts = receipt_ids(run.log);
    match pending_action(run.turn) {
        ActionView::Persist(event) => {
            lemma_ids_push(run.log, event);
            assert(run.log.push(event).drop_last() =~= run.log);
            match event {
                RuntimeEventView::ToolReceiptRecorded { receipt } => {
                    let grown = receipts.push(receipt.call_id);
                    assert(grown[receipts.len() as int] == receipt.call_id);
                    assert forall|id: Seq<char>| #[trigger] receipts.contains(id) implies grown.contains(
                        id,
                    ) by {
                        let i = choose|i: int| 0 <= i < receipts.len() && receipts[i] == id;
                        assert(grown[i] == id);
                    }
                },
                RuntimeEventView::ToolExecutionStarted { prepared } => {
                    match run.turn.phase {
                        PhaseView::RecordingStart { calls, index, .. } => {
                            let id = calls[index as int].id;
                            let all = call_ids(run.log);
                            let open = ids_of(calls.skip(index as int));
                            assert(open[0] == id);
                            assert(all[receipts.len() as int] == id);
                            assert(!receipts.contains(id)) by {
                                if receipts.contains(id) {
                                    let i = choose|i: int| 0 <= i < receipts.len()
                                        && receipts[i] == id;
                                    assert(all[i] == id);
                                }
                            }
                            assert(!started.contains(id));
                            let grown = started.push(id);
                            assert forall|i: int, j: int|
                                0 <= i < grown.len() && 0 <= j < grown.len() && i
                                    != j implies grown[i] != grown[j] by {
                                if i < started.len() {
                                    assert(started.contains(started[i]));
                                }
                                if j < started.len() {
                                    assert(started.contains(started[j]));
                                }
                            }
                            assert forall|other: Seq<char>| #[trigger]
                                grown.contains(other) implies receipts.contains(other) || other
                                == id by {
                                let i = choose|i: int| 0 <= i < grown.len() && grown[i] == other;
                                if i < started.len() {
                                    assert(started.contains(other));
                                }
                            }
                        },
                        _ => {},
                    }
                },
                _ => {},
            }
        },
        _ => {},
    }
}

proof fn lemma_started_once(frame: TurnFrameView, input: Seq<char>, replies: Seq<ReplyView>)
    requires
        possible(frame, input, replies),
    ensures
        started_once(run_of(frame, input, replies)),
    decreases replies.len(),
{
    if replies.len() > 0 {
        let before = replies.drop_last();
        lemma_started_once(frame, input, before);
        lemma_run_is_sound(frame, input, before);
        lemma_accounted(frame, input, before);
        lemma_started_once_step(run_of(frame, input, before), replies.last());
    }
}

/// No call is executed twice: the execution of a call is begun at most once in a turn.
pub proof fn law_call_is_executed_at_most_once(
    frame: TurnFrameView,
    input: Seq<char>,
    replies: Seq<ReplyView>,
)
    requires
        possible(frame, input, replies),
    ensures
        started_ids(run_of(frame, input, replies).log).no_duplicates(),
{
    lemma_started_once(frame, input, replies);
}

/// Whether a receipt is that of an execution.
pub open spec fn receipt_fits(receipt: ToolReceiptView, prepared: PreparedToolCallView) -> bool {
    receipt.call_id == prepared.call_id && receipt.tool_name == prepared.action.tool_name
}

/// Whether the turn waits for the outcome of the execution that it began last, or for the
/// receipt of that execution, or is over.
pub open spec fn awaits_receipt(run: RunView) -> bool {
    run.log.len() > 0 ==> (run.log.last() matches RuntimeEventView::ToolExecutionStarted {
        prepared: begun,
    } ==> match run.turn.phase {
        PhaseView::Executing { prepared, .. } => prepared == begun,
        PhaseView::RecordingReceipt { receipt, crossed, .. } => crossed && receipt_fits(
            receipt,
            begun,
        ),
        PhaseView::Finished { .. } => true,
        _ => false,
    })
}

proof fn lemma_awaits_receipt(frame: TurnFrameView, input: Seq<char>, replies: Seq<ReplyView>)
    requires
        possible(frame, input, replies),
    ensures
        awaits_receipt(run_of(frame, input, replies)),
    decreases replies.len(),
{
    if replies.len() > 0 {
        let before = replies.drop_last();
        lemma_awaits_receipt(frame, input, before);
        lemma_run_is_sound(frame, input, before);
    }
}

/// Where an execution was begun and its receipt cannot be made durable, the turn does not go
/// on as though the outcome were known: it ends by saying that it is not.
pub proof fn law_unrecorded_receipts_end_the_turn(
    frame: TurnFrameView,
    input: Seq<char>,
    replies: Seq<ReplyView>,
    prepared: PreparedToolCallView,
    receipt: ToolReceiptView,
    error: StoreErrorView,
)
    requires
        possible(frame, input, replies),
        run_of(frame, input, replies).log.len() > 0,
        run_of(frame, input, replies).log.last() == (RuntimeEventView::ToolExecutionStarted {
            prepared,
        }),
        pending_action(run_of(frame, input, replies).turn) == ActionView::Persist(
            RuntimeEventView::ToolReceiptRecorded { receipt },
        ),
    ensures
        receipt_fits(receipt, prepared),
        run_of(frame, input, replies.push(ReplyView::Persisted(Err(error)))).turn.phase == (
        PhaseView::Finished {
            result: Err(
                RuntimeErrorView::ReceiptPersistenceUnknown {
                    call_id: prepared.call_id,
                    tool_name: prepared.action.tool_name,
                    source: error,
                },
            ),
        }),
{
    lemma_awaits_receipt(frame, input, replies);
    let reply = ReplyView::Persisted(Err(error));
    assert(replies.push(reply).drop_last() =~= replies);
}

// ---------------------------------------------------------------------------
// The transcript
// ---------------------------------------------------------------------------

/// The transcript is that of the loaded thread and of what the turn has made durable
/// since.
pub open spec fn faithful(run: RunView) -> bool {
    &&& 0 <= run.mark <= run.log.len()
    &&& run.loaded ==> run.turn.transcript == run.base + transcript_of(run.log.skip(run.mark))
    &&& !run.loaded ==> (run.turn.phase is Starting || run.turn.phase is Greeting
        || run.turn.phase is Loading || run.turn.phase is Finished)
    &&& run.loaded ==> !(run.turn.phase is Starting) && !(run.turn.phase is Greeting) && !(
    run.turn.phase is Loading)
}

#[verifier::spinoff_prover]
#[verifier::rlimit(60)]
proof fn lemma_faithful_step(run: RunView, reply: ReplyView)
    requires
        sound(run.turn),
        faithful(run),
        answers(pending_action(run.turn), reply),
    ensures
        faithful(taken(run, reply)),
{
    let next = taken(run, reply);
    match pending_action(run.turn) {
        ActionView::Persist(event) => {
            let since = run.log.skip(run.mark);
            assert(run.log.push(event).skip(run.mark) =~= since.push(event));
            assert(since.push(event).drop_last() =~= since);
            match message_of(event) {
                Some(message) => {
                    assert(run.base + transcript_of(since).push(message) =~= (run.base
                        + transcript_of(since)).push(message));
                },
                None => {},
            }
        },
        ActionView::LoadThread => {
            assert(run.log.skip(run.log.len() as int) =~= Seq::empty());
            match reply {
                ReplyView::Loaded(Ok(events)) => {
                    let base = transcript_of(events_of(events));
                    assert(base + transcript_of(Seq::empty()) =~= base);
                },
                _ => {},
            }
        },
        _ => {},
    }
}

proof fn lemma_faithful(frame: TurnFrameView, input: Seq<char>, replies: Seq<ReplyView>)
    requires
        possible(frame, input, replies),
    ensures
        faithful(run_of(frame, input, replies)),
    decreases replies.len(),
{
    if replies.len() > 0 {
        let before = replies.drop_last();
        lemma_faithful(frame, input, before);
        lemma_run_is_sound(frame, input, before);
        lemma_faithful_step(run_of(frame, input, before), replies.last());
    }
}

/// The context of every model request is compiled from the durable history alone: the
/// transcript of the loaded thread followed by what the turn itself has made durable
/// since.
pub proof fn law_context_is_durable_history(
    frame: TurnFrameView,
    input: Seq<char>,
    replies: Seq<ReplyView>,
)
    requires
        possible(frame, input, replies),
    ensures
        ({
            let run = run_of(frame, input, replies);
            pending_action(run.turn) matches ActionView::Compile(context) ==> context.transcript
                == run.base + transcript_of(run.log.skip(run.mark))
        }),
{
    lemma_faithful(frame, input, replies);
}

// ---------------------------------------------------------------------------
// Rounds and endings
// ---------------------------------------------------------------------------

/// The number of model requests that were begun.
pub open spec fn requests(log: Seq<RuntimeEventView>) -> nat
    decreases log.len(),
{
    if log.len() == 0 {
        0
    } else {
        requests(log.drop_last()) + (if log.last() is ModelRequestStarted {
            1nat
        } else {
            0
        })
    }
}

/// Whether an event ends a turn.
pub open spec fn ends_turn(event: RuntimeEventView) -> bool {
    event is TurnCompleted || event is TurnFailed || event is TurnCancelled
}

/// Whether the model was already asked in the current round.
pub open spec fn asked(turn: TurnView) -> bool {
    !(turn.phase is Starting) && !(turn.phase is Greeting) && !(turn.phase is Loading) && !(
    turn.phase is Iterating) && !(turn.phase is Compiling) && !(turn.phase is CheckingContext)
        && !(turn.phase is RecordingContext) && !(turn.phase is RecordingRequest)
}

/// Whether a turn is on its way out.
pub open spec fn leaving(turn: TurnView) -> bool {
    turn.phase is Denying || turn.phase is RecordingHookFailure || turn.phase is Cancelling
        || turn.phase is Failing || turn.phase is Finished
}

/// Rounds are counted, and only the last event of a turn ends it.
pub open spec fn bounded(run: RunView) -> bool {
    let log = run.log;
    &&& requests(log) <= run.turn.frame.max_model_iterations
    &&& !leaving(run.turn) ==> requests(log) == run.turn.iteration + (if asked(run.turn) {
        1int
    } else {
        0
    })
    &&& forall|at: int| 0 <= at < log.len() && ends_turn(#[trigger] log[at]) ==> at == log.len() - 1
        && run.turn.phase is Finished
    &&& run.turn.phase matches PhaseView::Finished { result } ==> (match result {
        Ok(outcome) => log.len() > 0 && log.last() == (RuntimeEventView::TurnCompleted {
            content: outcome.content,
        }),
        Err(error) => match error {
            RuntimeErrorView::Store(_) => true,
            RuntimeErrorView::ReceiptPersistenceUnknown { .. } => true,
            RuntimeErrorView::Cancelled(_) => log.len() > 0 && log.last()
                == RuntimeEventView::TurnCancelled,
            _ => log.len() > 0 && log.last() is TurnFailed,
        },
    })
}

#[verifier::spinoff_prover]
#[verifier::rlimit(60)]
proof fn lemma_bounded_step(run: RunView, reply: ReplyView)
    requires
        sound(run.turn),
        bounded(run),
        endings_fit(run.turn),
        answers(pending_action(run.turn), reply),
    ensures
        bounded(taken(run, reply)),
{
    let next = taken(run, reply);
    match pending_action(run.turn) {
        ActionView::Persist(event) => {
            assert(run.log.push(event).drop_last() =~= run.log);
            assert(run.log.push(event).last() == event);
        },
        _ => {},
    }
    assert forall|at: int| 0 <= at < next.log.len() && ends_turn(#[trigger] next.log[at]) implies at
        == next.log.len() - 1 && next.turn.phase is Finished by {
        if at < run.log.len() {
            assert(next.log[at] == run.log[at]);
        }
    }
}

proof fn lemma_bounded(frame: TurnFrameView, input: Seq<char>, replies: Seq<ReplyView>)
    requires
        possible(frame, input, replies),
    ensures
        bounded(run_of(frame, input, replies)),
    decreases replies.len(),
{
    if replies.len() > 0 {
        let before = replies.drop_last();
        lemma_bounded(frame, input, before);
        lemma_run_is_sound(frame, input, before);
        lemma_accounted(frame, input, before);
        lemma_bounded_step(run_of(frame, input, before), replies.last());
    }
}

/// A turn asks the model at most as often as its configuration allows.
pub proof fn law_rounds_are_bounded(frame: TurnFrameView, input: Seq<char>, replies: Seq<ReplyView>)
    requires
        possible(frame, input, replies),
    ensures
        requests(run_of(frame, input, replies).log) <= frame.max_model_iterations,
{
    lemma_bounded(frame, input, replies);
    lemma_run_is_sound(frame, input, replies);
}

/// A turn ends at most once, with its last event. It returns an outcome exactly when
/// its completion is durable, and unless the store failed its failure or cancellation
/// is durable too.
pub proof fn law_turn_ends_once(frame: TurnFrameView, input: Seq<char>, replies: Seq<ReplyView>)
    requires
        possible(frame, input, replies),
    ensures
        ({
            let run = run_of(frame, input, replies);
            &&& forall|at: int|
                0 <= at < run.log.len() && ends_turn(#[trigger] run.log[at]) ==> at == run.log.len()
                    - 1 && run.turn.phase is Finished
            &&& run.turn.phase matches PhaseView::Finished { result } ==> (match result {
                Ok(outcome) => run.log.len() > 0 && run.log.last() == (
                RuntimeEventView::TurnCompleted { content: outcome.content }),
                Err(error) => match error {
                    RuntimeErrorView::Store(_) => true,
                    RuntimeErrorView::ReceiptPersistenceUnknown { .. } => true,
                    RuntimeErrorView::Cancelled(_) => run.log.len() > 0 && run.log.last()
                        == RuntimeEventView::TurnCancelled,
                    _ => run.log.len() > 0 && run.log.last() is TurnFailed,
                },
            })
        }),
{
    lemma_bounded(frame, input, replies);
}

/// Whether a turn can only end without an outcome.
pub open spec fn doomed(turn: TurnView) -> bool {
    match turn.phase {
        PhaseView::RecordingAnswer { cancelled, .. } => cancelled,
        PhaseView::Denying { .. } => true,
        PhaseView::Cancelling => true,
        PhaseView::Failing { .. } => true,
        PhaseView::Finished { result } => result is Err,
        _ => false,
    }
}

/// A turn that was found cancelled never completes, whatever the model had answered by
/// then: it can only end as cancelled, or fail.
pub proof fn law_cancelled_turn_never_completes(
    frame: TurnFrameView,
    input: Seq<char>,
    replies: Seq<ReplyView>,
    at: int,
)
    requires
        possible(frame, input, replies),
        0 <= at < replies.len(),
        replies[at] == ReplyView::Polled(true),
    ensures
        doomed(run_of(frame, input, replies).turn),
        run_of(frame, input, replies).turn.phase matches PhaseView::Finished { result }
            ==> result is Err,
    decreases replies.len(),
{
    let before = replies.drop_last();
    if at < replies.len() - 1 {
        assert(before[at] == replies[at]);
        law_cancelled_turn_never_completes(frame, input, before, at);
    }
    lemma_run_is_sound(frame, input, before);
}

/// The model is told of no tool but the visible ones of the frame.
pub proof fn law_model_sees_visible_tools_only(
    frame: TurnFrameView,
    input: Seq<char>,
    replies: Seq<ReplyView>,
)
    requires
        possible(frame, input, replies),
    ensures
        pending_action(run_of(frame, input, replies).turn) matches ActionView::AskModel(request)
            ==> request.tools == frame.visible_tools,
{
    lemma_run_is_sound(frame, input, replies);
}

} // verus!
