//! Closing what an interrupted turn left open.

use vstd::prelude::*;
use vstd::string::*;

use crate::datum::{lemma_views_push, opt_view, same_all, snapshot_all, views, Datum};
use crate::event::{EventEnvelope, EventEnvelopeView, RuntimeEvent, RuntimeEventView};
use crate::id::{CallId, ThreadId, TurnId};
use crate::keyed::{ascending, key_list, Keyed};
use crate::protocol::{
    ended_receipt, malformed_receipt, PreparedToolCall, PreparedToolCallView, ReceiptStatus, ToolCall,
    ToolCallView, ToolReceipt, ToolReceiptView,
};
use crate::store::{
    lemma_thread_log_push, thread_log, EventStamp, EventStore, StoreError, StoreErrorView,
};
use crate::text::{lemma_precedes_transitive, precedes};

verus! {

/// What a recovery recorded.
#[derive(Debug, PartialEq, Eq)]
pub struct RecoveryReport {
    pub receipts_recorded: Vec<ToolReceipt>,
    pub turns_marked_failed: Vec<TurnId>,
}

/// The model of [`RecoveryReport`].
#[verifier::ext_equal]
pub ghost struct RecoveryReportView {
    pub receipts_recorded: Seq<ToolReceiptView>,
    pub turns_marked_failed: Seq<Seq<char>>,
}

impl View for RecoveryReport {
    type V = RecoveryReportView;

    open spec fn view(&self) -> RecoveryReportView {
        RecoveryReportView {
            receipts_recorded: views(self.receipts_recorded@),
            turns_marked_failed: views(self.turns_marked_failed@),
        }
    }
}

impl Datum for RecoveryReport {
    fn snapshot(&self) -> (copy: Self) {
        RecoveryReport {
            receipts_recorded: snapshot_all(&self.receipts_recorded),
            turns_marked_failed: snapshot_all(&self.turns_marked_failed),
        }
    }

    fn same(&self, other: &Self) -> (equal: bool) {
        same_all(&self.receipts_recorded, &other.receipts_recorded)
            && same_all(&self.turns_marked_failed, &other.turns_marked_failed)
    }
}

impl Clone for RecoveryReport {
    fn clone(&self) -> (copy: Self)
        ensures
            copy@ == self@,
    {
        self.snapshot()
    }
}

// ---------------------------------------------------------------------------
// What a thread's events say of its calls and turns
// ---------------------------------------------------------------------------

/// How far a tool call got.
#[derive(Debug)]
struct CallTrace {
    requested: Option<ToolCall>,
    prepared: Option<PreparedToolCall>,
    started: Option<PreparedToolCall>,
    completed: bool,
}

/// How far a tool call got.
#[verifier::ext_equal]
pub ghost struct CallTraceView {
    /// The call as the model last emitted it.
    pub requested: Option<ToolCallView>,
    /// The action that it was last resolved to.
    pub prepared: Option<PreparedToolCallView>,
    /// The action whose execution was last begun.
    pub started: Option<PreparedToolCallView>,
    /// Whether it has a receipt.
    pub completed: bool,
}

impl View for CallTrace {
    type V = CallTraceView;

    closed spec fn view(&self) -> CallTraceView {
        CallTraceView {
            requested: opt_view(self.requested),
            prepared: opt_view(self.prepared),
            started: opt_view(self.started),
            completed: self.completed,
        }
    }
}

/// The trace of a call that no event speaks of.
pub open spec fn no_trace() -> CallTraceView {
    CallTraceView { requested: None, prepared: None, started: None, completed: false }
}

/// The last of the calls with an identifier, or else what was there before.
pub open spec fn last_request(
    calls: Seq<ToolCallView>,
    call_id: Seq<char>,
    before: Option<ToolCallView>,
) -> Option<ToolCallView>
    decreases calls.len(),
{
    if calls.len() == 0 {
        before
    } else if calls.last().id == call_id {
        Some(calls.last())
    } else {
        last_request(calls.drop_last(), call_id, before)
    }
}

/// What an event of its turn adds to the trace of a call.
pub open spec fn traced(
    trace: CallTraceView,
    event: RuntimeEventView,
    call_id: Seq<char>,
) -> CallTraceView {
    match event {
        RuntimeEventView::AssistantMessage { tool_calls, .. } => CallTraceView {
            requested: last_request(tool_calls, call_id, trace.requested),
            ..trace
        },
        RuntimeEventView::ToolPrepared { prepared } => if prepared.call_id == call_id {
            CallTraceView { prepared: Some(prepared), ..trace }
        } else {
            trace
        },
        RuntimeEventView::ToolExecutionStarted { prepared } => if prepared.call_id == call_id {
            CallTraceView { started: Some(prepared), ..trace }
        } else {
            trace
        },
        RuntimeEventView::ToolReceiptRecorded { receipt } => if receipt.call_id == call_id {
            CallTraceView { completed: true, ..trace }
        } else {
            trace
        },
        _ => trace,
    }
}

/// What the events of a thread say of a call of a turn.
pub open spec fn trace_of(
    events: Seq<EventEnvelopeView>,
    turn_id: Seq<char>,
    call_id: Seq<char>,
) -> CallTraceView
    decreases events.len(),
{
    if events.len() == 0 {
        no_trace()
    } else {
        let before = trace_of(events.drop_last(), turn_id, call_id);
        if events.last().turn_id == Some(turn_id) {
            traced(before, events.last().event, call_id)
        } else {
            before
        }
    }
}

/// Whether a turn was begun and not ended.
pub open spec fn turn_open(events: Seq<EventEnvelopeView>, turn_id: Seq<char>) -> bool
    decreases events.len(),
{
    if events.len() == 0 {
        false
    } else {
        let before = turn_open(events.drop_last(), turn_id);
        if events.last().turn_id == Some(turn_id) {
            match events.last().event {
                RuntimeEventView::TurnStarted => true,
                RuntimeEventView::TurnCompleted { .. } => false,
                RuntimeEventView::TurnFailed { .. } => false,
                RuntimeEventView::TurnCancelled => false,
                _ => before,
            }
        } else {
            before
        }
    }
}

// ---------------------------------------------------------------------------
// What recovery records
// ---------------------------------------------------------------------------

/// The receipt that closes a call without one: unknown if its execution was begun,
/// failed if it was not. A call that has a receipt, or of which nothing is known,
/// gets none.
pub open spec fn closing_receipt(trace: CallTraceView) -> Option<ToolReceiptView> {
    if trace.completed {
        None
    } else if trace.started is Some {
        Some(
            ended_receipt(
                trace.started->Some_0,
                ReceiptStatus::Unknown,
                "execution started but no durable receipt was found during recovery"@,
            ),
        )
    } else if trace.prepared is Some {
        Some(
            ended_receipt(
                trace.prepared->Some_0,
                ReceiptStatus::Failed,
                "turn was interrupted before execution began"@,
            ),
        )
    } else if trace.requested is Some {
        Some(
            malformed_receipt(
                trace.requested->Some_0,
                "turn was interrupted before tool preparation"@,
            ),
        )
    } else {
        None
    }
}

/// The order of calls: by turn, then by call.
pub open spec fn call_precedes(
    left: (Seq<char>, ToolReceiptView),
    right: (Seq<char>, ToolReceiptView),
) -> bool {
    precedes(left.0, right.0) || (left.0 == right.0 && precedes(left.1.call_id, right.1.call_id))
}

/// Whether the receipts close exactly the calls of the thread that are without one,
/// each once, ordered by turn and call.
pub open spec fn closes_calls(
    events: Seq<EventEnvelopeView>,
    receipts: Seq<(Seq<char>, ToolReceiptView)>,
) -> bool {
    &&& forall|i: int, j: int|
        0 <= i < j < receipts.len() ==> call_precedes(#[trigger] receipts[i], #[trigger] receipts[j])
    &&& forall|i: int|
        0 <= i < receipts.len() ==> closing_receipt(
            trace_of(events, (#[trigger] receipts[i]).0, receipts[i].1.call_id),
        ) == Some(receipts[i].1)
    &&& forall|turn_id: Seq<char>, call_id: Seq<char>|
        closing_receipt(#[trigger] trace_of(events, turn_id, call_id)) is Some ==> receipts.contains(
            (turn_id, closing_receipt(trace_of(events, turn_id, call_id))->Some_0),
        )
}

/// Whether the turns are exactly the open ones, in ascending order.
pub open spec fn lists_open_turns(events: Seq<EventEnvelopeView>, turns: Seq<Seq<char>>) -> bool {
    &&& ascending(turns)
    &&& forall|turn_id: Seq<char>| #[trigger] turns.contains(turn_id) <==> turn_open(events, turn_id)
}

/// The events that recovery records: a receipt for each call, then the failure of
/// each turn.
pub open spec fn recovery_events(
    receipts: Seq<(Seq<char>, ToolReceiptView)>,
    turns: Seq<Seq<char>>,
) -> Seq<(Option<Seq<char>>, RuntimeEventView)> {
    receipts.map_values(
        |entry: (Seq<char>, ToolReceiptView)|
            (Some(entry.0), RuntimeEventView::ToolReceiptRecorded { receipt: entry.1 }),
    ) + turns.map_values(
        |turn_id: Seq<char>|
            (
                Some(turn_id),
                RuntimeEventView::TurnFailed {
                    error: "turn was interrupted and recovered without replaying actions"@,
                },
            ),
    )
}

/// Each event with its turn, without number, time and identity.
pub open spec fn bare(events: Seq<EventEnvelopeView>) -> Seq<(Option<Seq<char>>, RuntimeEventView)> {
    events.map_values(|envelope: EventEnvelopeView| (envelope.turn_id, envelope.event))
}

// ---------------------------------------------------------------------------
// Laws
// ---------------------------------------------------------------------------

proof fn lemma_last_request(
    calls: Seq<ToolCallView>,
    call_id: Seq<char>,
    before: Option<ToolCallView>,
)
    requires
        before is Some ==> before->Some_0.id == call_id,
    ensures
        last_request(calls, call_id, before) is Some ==> last_request(
            calls,
            call_id,
            before,
        )->Some_0.id == call_id,
    decreases calls.len(),
{
    if calls.len() > 0 {
        lemma_last_request(calls.drop_last(), call_id, before);
    }
}

proof fn lemma_trace_ids(events: Seq<EventEnvelopeView>, turn_id: Seq<char>, call_id: Seq<char>)
    ensures
        ({
            let trace = trace_of(events, turn_id, call_id);
            &&& trace.requested is Some ==> trace.requested->Some_0.id == call_id
            &&& trace.prepared is Some ==> trace.prepared->Some_0.call_id == call_id
            &&& trace.started is Some ==> trace.started->Some_0.call_id == call_id
            &&& closing_receipt(trace) is Some ==> closing_receipt(trace)->Some_0.call_id == call_id
        }),
    decreases events.len(),
{
    if events.len() > 0 {
        lemma_trace_ids(events.drop_last(), turn_id, call_id);
        let before = trace_of(events.drop_last(), turn_id, call_id);
        match events.last().event {
            RuntimeEventView::AssistantMessage { tool_calls, .. } => {
                lemma_last_request(tool_calls, call_id, before.requested);
            },
            _ => {},
        }
    }
}

proof fn lemma_trace_push(
    events: Seq<EventEnvelopeView>,
    envelope: EventEnvelopeView,
    turn_id: Seq<char>,
    call_id: Seq<char>,
)
    ensures
        trace_of(events.push(envelope), turn_id, call_id) == (if envelope.turn_id == Some(turn_id) {
            traced(trace_of(events, turn_id, call_id), envelope.event, call_id)
        } else {
            trace_of(events, turn_id, call_id)
        }),
{
    assert(events.push(envelope).drop_last() =~= events);
}

proof fn lemma_open_push(
    events: Seq<EventEnvelopeView>,
    envelope: EventEnvelopeView,
    turn_id: Seq<char>,
)
    ensures
        turn_open(events.push(envelope), turn_id) == (if envelope.turn_id == Some(turn_id) {
            match envelope.event {
                RuntimeEventView::TurnStarted => true,
                RuntimeEventView::TurnCompleted { .. } => false,
                RuntimeEventView::TurnFailed { .. } => false,
                RuntimeEventView::TurnCancelled => false,
                _ => turn_open(events, turn_id),
            }
        } else {
            turn_open(events, turn_id)
        }),
{
    assert(events.push(envelope).drop_last() =~= events);
}

/// The first `count` events of a recovery, seen from one call and one turn: they
/// complete the calls that they carry a receipt for, close the turns that they
/// fail, and change nothing else.
proof fn lemma_recovered(
    events: Seq<EventEnvelopeView>,
    recorded: Seq<EventEnvelopeView>,
    receipts: Seq<(Seq<char>, ToolReceiptView)>,
    turns: Seq<Seq<char>>,
    count: int,
    turn_id: Seq<char>,
    call_id: Seq<char>,
)
    requires
        bare(recorded) == recovery_events(receipts, turns),
        0 <= count <= recorded.len(),
    ensures
        ({
            let before = trace_of(events, turn_id, call_id);
            let after = trace_of(events + recorded.take(count), turn_id, call_id);
            &&& after == (CallTraceView {
                completed: before.completed || exists|i: int|
                    0 <= i < count && i < receipts.len() && (#[trigger] receipts[i]).0 == turn_id
                        && receipts[i].1.call_id == call_id,
                ..before
            })
            &&& turn_open(events + recorded.take(count), turn_id) == (turn_open(events, turn_id)
                && !exists|i: int|
                0 <= i < turns.len() && receipts.len() + i < count
                    && #[trigger] turns[i] == turn_id)
        }),
    decreases count,
{
    if count == 0 {
        assert(events + recorded.take(0) =~= events);
    } else {
        lemma_recovered(events, recorded, receipts, turns, count - 1, turn_id, call_id);
        let earlier = events + recorded.take(count - 1);
        let envelope = recorded[count - 1];
        assert(events + recorded.take(count) =~= earlier.push(envelope));
        lemma_trace_push(earlier, envelope, turn_id, call_id);
        lemma_open_push(earlier, envelope, turn_id);
        let all = recovery_events(receipts, turns);
        assert(bare(recorded).len() == recorded.len());
        assert(all.len() == receipts.len() + turns.len());
        assert(bare(recorded)[count - 1] == (envelope.turn_id, envelope.event));
        if count - 1 < receipts.len() {
            let entry = receipts[count - 1];
            assert(envelope.turn_id == Some(entry.0));
            assert(envelope.event == RuntimeEventView::ToolReceiptRecorded { receipt: entry.1 });
            if exists|i: int|
                0 <= i < count - 1 && i < receipts.len() && (#[trigger] receipts[i]).0 == turn_id
                    && receipts[i].1.call_id == call_id {
                let i = choose|i: int|
                    0 <= i < count - 1 && i < receipts.len()
                        && (#[trigger] receipts[i]).0 == turn_id
                        && receipts[i].1.call_id == call_id;
                assert(receipts[i].0 == turn_id);
            }
        } else {
            let index = count - 1 - receipts.len();
            assert(all[count - 1].0 == Some(turns[index]));
            assert(envelope.turn_id == Some(turns[index]));
            assert(envelope.event is TurnFailed);
            if exists|i: int|
                0 <= i < turns.len() && receipts.len() + i < count - 1 && #[trigger] turns[i]
                    == turn_id {
                let i = choose|i: int|
                    0 <= i < turns.len() && receipts.len() + i < count - 1 && #[trigger] turns[i]
                        == turn_id;
                assert(turns[i] == turn_id);
            }
        }
    }
}

/// Recovery is complete and idempotent: once its events are recorded, every call has
/// its receipt and no turn is open, so that a second recovery records nothing.
pub proof fn law_recovery_is_idempotent(
    events: Seq<EventEnvelopeView>,
    recorded: Seq<EventEnvelopeView>,
    receipts: Seq<(Seq<char>, ToolReceiptView)>,
    turns: Seq<Seq<char>>,
)
    requires
        closes_calls(events, receipts),
        lists_open_turns(events, turns),
        bare(recorded) == recovery_events(receipts, turns),
    ensures
        closes_calls(events + recorded, Seq::empty()),
        lists_open_turns(events + recorded, Seq::empty()),
{
    let after = events + recorded;
    assert(recorded.take(recorded.len() as int) =~= recorded);
    assert(bare(recorded).len() == receipts.len() + turns.len());
    assert forall|turn_id: Seq<char>, call_id: Seq<char>| closing_receipt(
        #[trigger] trace_of(after, turn_id, call_id),
    ) is None by {
        lemma_recovered(
            events,
            recorded,
            receipts,
            turns,
            recorded.len() as int,
            turn_id,
            call_id,
        );
        let before = trace_of(events, turn_id, call_id);
        if closing_receipt(before) is Some {
            lemma_trace_ids(events, turn_id, call_id);
            let entry = (turn_id, closing_receipt(before)->Some_0);
            assert(receipts.contains(entry));
            let i = choose|i: int| 0 <= i < receipts.len() && receipts[i] == entry;
            assert(receipts[i].0 == turn_id && receipts[i].1.call_id == call_id);
        }
    }
    assert forall|turn_id: Seq<char>| !(#[trigger] turn_open(after, turn_id)) by {
        lemma_recovered(
            events,
            recorded,
            receipts,
            turns,
            recorded.len() as int,
            turn_id,
            Seq::empty(),
        );
        if turn_open(events, turn_id) {
            assert(turns.contains(turn_id));
            let i = choose|i: int| 0 <= i < turns.len() && turns[i] == turn_id;
            assert(turns[i] == turn_id && receipts.len() + i < recorded.len());
        }
    }
    assert forall|turn_id: Seq<char>| #[trigger]
        Seq::<Seq<char>>::empty().contains(turn_id) <==> turn_open(after, turn_id) by {}
}

/// A durable answer of a turn keeps the trace of its calls.
proof fn lemma_requested(
    events: Seq<EventEnvelopeView>,
    turn_id: Seq<char>,
    at: int,
    index: int,
)
    requires
        0 <= at < events.len(),
        events[at].turn_id == Some(turn_id),
        events[at].event is AssistantMessage,
        0 <= index < events[at].event->tool_calls.len(),
    ensures
        trace_of(events, turn_id, events[at].event->tool_calls[index].id).requested is Some,
    decreases events.len(),
{
    let calls = events[at].event->tool_calls;
    let call_id = calls[index].id;
    let before = trace_of(events.drop_last(), turn_id, call_id);
    if at < events.len() - 1 {
        assert(events.drop_last()[at] == events[at]);
        lemma_requested(events.drop_last(), turn_id, at, index);
        if events.last().event is AssistantMessage {
            lemma_request_stays(events.last().event->tool_calls, call_id, before.requested);
        }
    } else {
        lemma_request_found(calls, index, before.requested);
    }
}

proof fn lemma_request_stays(
    calls: Seq<ToolCallView>,
    call_id: Seq<char>,
    before: Option<ToolCallView>,
)
    requires
        before is Some,
    ensures
        last_request(calls, call_id, before) is Some,
    decreases calls.len(),
{
    if calls.len() > 0 {
        lemma_request_stays(calls.drop_last(), call_id, before);
    }
}

proof fn lemma_request_found(calls: Seq<ToolCallView>, index: int, before: Option<ToolCallView>)
    requires
        0 <= index < calls.len(),
    ensures
        last_request(calls, calls[index].id, before) is Some,
    decreases calls.len(),
{
    if calls.last().id != calls[index].id {
        assert(calls.drop_last()[index] == calls[index]);
        lemma_request_found(calls.drop_last(), index, before);
    }
}

/// Whether an event is the receipt of a call of a turn.
pub open spec fn closes_call(
    envelope: EventEnvelopeView,
    turn_id: Seq<char>,
    call_id: Seq<char>,
) -> bool {
    envelope.turn_id == Some(turn_id)
        && (envelope.event matches RuntimeEventView::ToolReceiptRecorded { receipt }
        && receipt.call_id == call_id)
}

proof fn lemma_completed(events: Seq<EventEnvelopeView>, turn_id: Seq<char>, call_id: Seq<char>) -> (
    at: int)
    requires
        trace_of(events, turn_id, call_id).completed,
    ensures
        0 <= at < events.len(),
        closes_call(events[at], turn_id, call_id),
    decreases events.len(),
{
    if closes_call(events.last(), turn_id, call_id) {
        events.len() - 1
    } else {
        let at = lemma_completed(events.drop_last(), turn_id, call_id);
        assert(events.drop_last()[at] == events[at]);
        at
    }
}

/// After a recovery every call that the model ever emitted in the thread has a durable
/// receipt, however its turn had ended.
pub proof fn law_recovery_closes_every_call(
    events: Seq<EventEnvelopeView>,
    recorded: Seq<EventEnvelopeView>,
    receipts: Seq<(Seq<char>, ToolReceiptView)>,
    turns: Seq<Seq<char>>,
    turn_id: Seq<char>,
    at: int,
    index: int,
)
    requires
        closes_calls(events, receipts),
        lists_open_turns(events, turns),
        bare(recorded) == recovery_events(receipts, turns),
        0 <= at < events.len(),
        events[at].turn_id == Some(turn_id),
        events[at].event is AssistantMessage,
        0 <= index < events[at].event->tool_calls.len(),
    ensures
        exists|i: int|
            0 <= i < (events + recorded).len() && #[trigger] closes_call(
                (events + recorded)[i],
                turn_id,
                events[at].event->tool_calls[index].id,
            ),
{
    let after = events + recorded;
    let call_id = events[at].event->tool_calls[index].id;
    law_recovery_is_idempotent(events, recorded, receipts, turns);
    assert(after[at] == events[at]);
    lemma_requested(after, turn_id, at, index);
    let trace = trace_of(after, turn_id, call_id);
    assert(closing_receipt(trace) is None);
    let i = lemma_completed(after, turn_id, call_id);
    assert(closes_call(after[i], turn_id, call_id));
}

/// Recovery replays nothing: it begins no execution and asks for no approval, and
/// the call of a begun execution is closed as unknown, never as failed or done.
pub proof fn law_recovery_replays_nothing(
    events: Seq<EventEnvelopeView>,
    receipts: Seq<(Seq<char>, ToolReceiptView)>,
    turns: Seq<Seq<char>>,
    index: int,
)
    requires
        closes_calls(events, receipts),
        0 <= index < recovery_events(receipts, turns).len(),
    ensures
        recovery_events(receipts, turns)[index].1 is ToolReceiptRecorded
            || recovery_events(receipts, turns)[index].1 is TurnFailed,
        recovery_events(receipts, turns)[index].1 matches RuntimeEventView::ToolReceiptRecorded {
            receipt,
        } ==> {
            let trace = trace_of(events, receipts[index].0, receipt.call_id);
            &&& !trace.completed
            &&& receipt.output is None
            &&& receipt.status == ReceiptStatus::Unknown <==> trace.started is Some
            &&& receipt.status == ReceiptStatus::Failed <==> trace.started is None
        },
{
    let all = recovery_events(receipts, turns);
    if index < receipts.len() {
        let entry = receipts[index];
        assert(all[index].1 == RuntimeEventView::ToolReceiptRecorded { receipt: entry.1 });
        assert(closing_receipt(trace_of(events, entry.0, entry.1.call_id)) == Some(entry.1));
    }
}

// ---------------------------------------------------------------------------
// Surveying a thread
// ---------------------------------------------------------------------------

/// What the survey holds of a call.
spec fn found(
    turns: Map<Seq<char>, Keyed<CallTrace>>,
    turn_id: Seq<char>,
    call_id: Seq<char>,
) -> CallTraceView {
    if turns.contains_key(turn_id) && turns[turn_id]@.contains_key(call_id) {
        turns[turn_id]@[call_id]@
    } else {
        no_trace()
    }
}

/// One fact about a call.
enum Step {
    Requested(ToolCall),
    Prepared(PreparedToolCall),
    Started(PreparedToolCall),
    Completed,
}

spec fn stepped(trace: CallTraceView, step: Step) -> CallTraceView {
    match step {
        Step::Requested(call) => CallTraceView { requested: Some(call@), ..trace },
        Step::Prepared(prepared) => CallTraceView { prepared: Some(prepared@), ..trace },
        Step::Started(prepared) => CallTraceView { started: Some(prepared@), ..trace },
        Step::Completed => CallTraceView { completed: true, ..trace },
    }
}

fn note(turns: &mut Keyed<Keyed<CallTrace>>, turn_id: &TurnId, call_id: &CallId, step: Step)
    ensures
        forall|t: Seq<char>, c: Seq<char>| #[trigger]
            found(final(turns)@, t, c) == (if t == turn_id@ && c == call_id@ {
                stepped(found(old(turns)@, t, c), step)
            } else {
                found(old(turns)@, t, c)
            }),
{
    let mut calls = match turns.remove(turn_id.as_str()) {
        Some(calls) => calls,
        None => Keyed::new(),
    };
    let mut trace = match calls.remove(call_id.as_str()) {
        Some(trace) => trace,
        None => CallTrace { requested: None, prepared: None, started: None, completed: false },
    };
    match step {
        Step::Requested(call) => {
            trace.requested = Some(call);
        },
        Step::Prepared(prepared) => {
            trace.prepared = Some(prepared);
        },
        Step::Started(prepared) => {
            trace.started = Some(prepared);
        },
        Step::Completed => {
            trace.completed = true;
        },
    }
    let _ = calls.insert(call_id.as_str().to_owned(), trace);
    let _ = turns.insert(turn_id.as_str().to_owned(), calls);
}

fn note_calls(turns: &mut Keyed<Keyed<CallTrace>>, turn_id: &TurnId, calls: &Vec<ToolCall>)
    ensures
        forall|t: Seq<char>, c: Seq<char>| #[trigger]
            found(final(turns)@, t, c) == (if t == turn_id@ {
                CallTraceView {
                    requested: last_request(
                        views(calls@),
                        c,
                        found(old(turns)@, t, c).requested,
                    ),
                    ..found(old(turns)@, t, c)
                }
            } else {
                found(old(turns)@, t, c)
            }),
{
    let ghost before = turns@;
    let ghost all = views(calls@);
    let mut index: usize = 0;
    assert(all.take(0) =~= Seq::empty());
    while index < calls.len()
        invariant
            index <= calls@.len(),
            all == views(calls@),
            forall|t: Seq<char>, c: Seq<char>| #[trigger]
                found(turns@, t, c) == (if t == turn_id@ {
                    CallTraceView {
                        requested: last_request(
                            all.take(index as int),
                            c,
                            found(before, t, c).requested,
                        ),
                        ..found(before, t, c)
                    }
                } else {
                    found(before, t, c)
                }),
        decreases calls@.len() - index,
    {
        let call = calls[index].clone();
        proof {
            let grown = all.take(index as int + 1);
            assert(grown.drop_last() =~= all.take(index as int));
            assert(grown.last() == call@);
        }
        note(turns, turn_id, &calls[index].id, Step::Requested(call));
        index = index + 1;
    }
    assert(all.take(index as int) =~= all);
}

/// What the events of a thread leave to be closed.
struct Survey {
    turns: Keyed<Keyed<CallTrace>>,
    open: Keyed<bool>,
}

fn survey(events: &Vec<EventEnvelope>) -> (survey: Survey)
    ensures
        forall|t: Seq<char>, c: Seq<char>| #[trigger]
            found(survey.turns@, t, c) == trace_of(views(events@), t, c),
        forall|t: Seq<char>| #[trigger]
            survey.open@.contains_key(t) == turn_open(views(events@), t),
{
    let ghost log = views(events@);
    let mut turns: Keyed<Keyed<CallTrace>> = Keyed::new();
    let mut open: Keyed<bool> = Keyed::new();
    let mut index: usize = 0;
    assert(log.take(0) =~= Seq::empty());
    while index < events.len()
        invariant
            index <= events@.len(),
            log == views(events@),
            forall|t: Seq<char>, c: Seq<char>| #[trigger]
                found(turns@, t, c) == trace_of(log.take(index as int), t, c),
            forall|t: Seq<char>| #[trigger]
                open@.contains_key(t) == turn_open(log.take(index as int), t),
        decreases events@.len() - index,
    {
        let ghost past = log.take(index as int);
        let ghost grown = log.take(index as int + 1);
        proof {
            assert(grown.drop_last() =~= past);
            assert(grown.last() == events@[index as int]@);
        }
        match &events[index].turn_id {
            Some(turn_id) => match &events[index].event {
                RuntimeEvent::TurnStarted => {
                    let _ = open.insert(turn_id.as_str().to_owned(), true);
                },
                RuntimeEvent::AssistantMessage { tool_calls, .. } => {
                    note_calls(&mut turns, turn_id, tool_calls);
                },
                RuntimeEvent::ToolPrepared { prepared } => {
                    note(&mut turns, turn_id, &prepared.call_id, Step::Prepared(prepared.clone()));
                },
                RuntimeEvent::ToolExecutionStarted { prepared } => {
                    note(&mut turns, turn_id, &prepared.call_id, Step::Started(prepared.clone()));
                },
                RuntimeEvent::ToolReceiptRecorded { receipt } => {
                    note(&mut turns, turn_id, &receipt.call_id, Step::Completed);
                },
                RuntimeEvent::TurnCompleted { .. } => {
                    let _ = open.remove(turn_id.as_str());
                },
                RuntimeEvent::TurnFailed { .. } => {
                    let _ = open.remove(turn_id.as_str());
                },
                RuntimeEvent::TurnCancelled => {
                    let _ = open.remove(turn_id.as_str());
                },
                _ => {},
            },
            None => {},
        }
        proof {
            assert forall|t: Seq<char>, c: Seq<char>| #[trigger]
                found(turns@, t, c) == trace_of(grown, t, c) by {
                let earlier = trace_of(past, t, c);
            }
            assert forall|t: Seq<char>| #[trigger] open@.contains_key(t) == turn_open(grown, t) by {
                let earlier = turn_open(past, t);
            }
        }
        index = index + 1;
    }
    assert(log.take(index as int) =~= log);
    Survey { turns, open }
}

fn close_call(trace: &CallTrace) -> (receipt: Option<ToolReceipt>)
    ensures
        opt_view(receipt) == closing_receipt(trace@),
{
    if trace.completed {
        return None;
    }
    match &trace.started {
        Some(prepared) => {
            return Some(
                ToolReceipt::unknown(
                    prepared.clone(),
                    "execution started but no durable receipt was found during recovery".to_owned(),
                ),
            );
        },
        None => {},
    }
    match &trace.prepared {
        Some(prepared) => {
            return Some(
                ToolReceipt::failed(
                    prepared.clone(),
                    "turn was interrupted before execution began".to_owned(),
                ),
            );
        },
        None => {},
    }
    match &trace.requested {
        Some(call) => Some(
            ToolReceipt::malformed(
                call,
                "turn was interrupted before tool preparation".to_owned(),
            ),
        ),
        None => None,
    }
}

/// The receipts that close the calls of one turn, in the order of the calls.
fn close_turn(calls: &Keyed<CallTrace>) -> (receipts: Vec<ToolReceipt>)
    requires
        forall|c: Seq<char>| #[trigger]
            calls@.contains_key(c) && closing_receipt(calls@[c]@) is Some ==> closing_receipt(
                calls@[c]@,
            )->Some_0.call_id == c,
    ensures
        forall|i: int, j: int|
            0 <= i < j < receipts@.len() ==> precedes(
                (#[trigger] views(receipts@)[i]).call_id,
                (#[trigger] views(receipts@)[j]).call_id,
            ),
        forall|i: int|
            0 <= i < receipts@.len() ==> calls@.contains_key(
                (#[trigger] views(receipts@)[i]).call_id,
            ) && closing_receipt(calls@[views(receipts@)[i].call_id]@) == Some(views(receipts@)[i]),
        forall|c: Seq<char>| #[trigger]
            calls@.contains_key(c) && closing_receipt(calls@[c]@) is Some ==> views(
                receipts@,
            ).contains(closing_receipt(calls@[c]@)->Some_0),
{
    let count: usize = calls.len();
    let ghost keys = calls.keys();
    let mut receipts: Vec<ToolReceipt> = Vec::new();
    let mut index: usize = 0;
    while index < count
        invariant
            index <= count,
            count == keys.len(),
            keys == calls.keys(),
            ascending(keys),
            calls@.dom() == keys.to_set(),
            forall|c: Seq<char>| #[trigger]
                calls@.contains_key(c) && closing_receipt(calls@[c]@) is Some ==> closing_receipt(
                    calls@[c]@,
                )->Some_0.call_id == c,
            forall|i: int, j: int|
                0 <= i < j < receipts@.len() ==> precedes(
                    (#[trigger] views(receipts@)[i]).call_id,
                    (#[trigger] views(receipts@)[j]).call_id,
                ),
            forall|i: int|
                0 <= i < receipts@.len() ==> calls@.contains_key(
                    (#[trigger] views(receipts@)[i]).call_id,
                ) && closing_receipt(calls@[views(receipts@)[i].call_id]@) == Some(
                    views(receipts@)[i],
                ),
            forall|i: int|
                0 <= i < receipts@.len() && index < count ==> precedes(
                    (#[trigger] views(receipts@)[i]).call_id,
                    keys[index as int],
                ),
            forall|k: int|
                0 <= k < index && closing_receipt(calls@[#[trigger] keys[k]]@) is Some ==> views(
                    receipts@,
                ).contains(closing_receipt(calls@[keys[k]]@)->Some_0),
        decreases count - index,
    {
        let ghost before = receipts@;
        let ghost key = keys[index as int];
        let trace = calls.value_at(index);
        match close_call(trace) {
            Some(receipt) => {
                proof {
                    lemma_views_push(before, receipt);
                }
                receipts.push(receipt);
            },
            None => {},
        }
        proof {
            let grown = views(receipts@);
            assert(calls@.contains_key(key));
            assert forall|i: int| 0 <= i < before.len() implies grown[i] == views(before)[i] by {}
            assert forall|i: int|
                0 <= i < receipts@.len() && index + 1 < count implies precedes(
                (#[trigger] grown[i]).call_id,
                keys[index + 1],
            ) by {
                assert(precedes(key, keys[index + 1]));
                if i < before.len() {
                    assert(precedes(views(before)[i].call_id, key));
                    lemma_precedes_transitive(grown[i].call_id, key, keys[index + 1]);
                }
            }
            assert forall|k: int|
                0 <= k < index + 1 && closing_receipt(
                    calls@[#[trigger] keys[k]]@,
                ) is Some implies grown.contains(closing_receipt(calls@[keys[k]]@)->Some_0) by {
                let wanted = closing_receipt(calls@[keys[k]]@)->Some_0;
                if k < index {
                    assert(views(before).contains(wanted));
                    let n = choose|n: int| 0 <= n < views(before).len()
                        && views(before)[n] == wanted;
                    assert(grown[n] == wanted);
                } else {
                    assert(grown[before.len() as int] == wanted);
                }
            }
        }
        index = index + 1;
    }
    proof {
        assert forall|c: Seq<char>| #[trigger]
            calls@.contains_key(c) && closing_receipt(calls@[c]@) is Some implies views(
            receipts@,
        ).contains(closing_receipt(calls@[c]@)->Some_0) by {
            assert(keys.to_set().contains(c));
            let k = choose|k: int| 0 <= k < keys.len() && keys[k] == c;
            assert(closing_receipt(calls@[keys[k]]@) is Some);
        }
    }
    receipts
}

/// What a recovery of a thread is to record.
#[derive(Debug)]
pub struct RecoveryPlan {
    /// The receipts, each with the turn of its call.
    pub receipts: Vec<(TurnId, ToolReceipt)>,
    /// The turns to be failed.
    pub turns: Vec<TurnId>,
}

/// The receipts of a plan, each with its turn.
pub open spec fn tagged(receipts: Seq<(TurnId, ToolReceipt)>) -> Seq<(Seq<char>, ToolReceiptView)> {
    receipts.map_values(|entry: (TurnId, ToolReceipt)| (entry.0@, entry.1@))
}

/// Works out what closes the interrupted edges of a thread.
pub fn plan_recovery(events: &Vec<EventEnvelope>) -> (plan: RecoveryPlan)
    ensures
        closes_calls(views(events@), tagged(plan.receipts@)),
        lists_open_turns(views(events@), views(plan.turns@)),
{
    let ghost log = views(events@);
    let survey = survey(events);
    let receipts = close_calls(&survey.turns, Ghost(log));
    let names = key_list(&survey.open);
    let mut turns: Vec<TurnId> = Vec::new();
    let mut index: usize = 0;
    while index < names.len()
        invariant
            index <= names@.len(),
            views(turns@) == views(names@).take(index as int),
        decreases names@.len() - index,
    {
        let turn_id = TurnId::from_string(names[index].clone());
        proof {
            lemma_views_push(turns@, turn_id);
            assert(views(names@).take(index as int + 1) =~= views(names@).take(index as int).push(
                turn_id@,
            ));
        }
        turns.push(turn_id);
        index = index + 1;
    }
    proof {
        assert(views(names@).take(index as int) =~= views(names@));
        assert forall|t: Seq<char>| #[trigger] views(turns@).contains(t) <==> turn_open(log, t) by {
            assert(survey.open@.contains_key(t) == turn_open(log, t));
            assert(survey.open@.dom().contains(t) == survey.open.keys().to_set().contains(t));
        }
    }
    RecoveryPlan { receipts, turns }
}

fn close_calls(turns: &Keyed<Keyed<CallTrace>>, Ghost(log): Ghost<Seq<EventEnvelopeView>>) -> (receipts: Vec<
    (TurnId, ToolReceipt),
>)
    requires
        forall|t: Seq<char>, c: Seq<char>| #[trigger] found(turns@, t, c) == trace_of(log, t, c),
    ensures
        closes_calls(log, tagged(receipts@)),
{
    let count: usize = turns.len();
    let ghost keys = turns.keys();
    let mut receipts: Vec<(TurnId, ToolReceipt)> = Vec::new();
    let mut index: usize = 0;
    while index < count
        invariant
            index <= count,
            count == keys.len(),
            keys == turns.keys(),
            ascending(keys),
            turns@.dom() == keys.to_set(),
            forall|t: Seq<char>, c: Seq<char>| #[trigger] found(turns@, t, c) == trace_of(log, t, c),
            forall|i: int, j: int|
                0 <= i < j < receipts@.len() ==> call_precedes(
                    #[trigger] tagged(receipts@)[i],
                    #[trigger] tagged(receipts@)[j],
                ),
            forall|i: int|
                0 <= i < receipts@.len() ==> closing_receipt(
                    trace_of(
                        log,
                        (#[trigger] tagged(receipts@)[i]).0,
                        tagged(receipts@)[i].1.call_id,
                    ),
                ) == Some(tagged(receipts@)[i].1),
            forall|i: int|
                0 <= i < receipts@.len() && index < count ==> precedes(
                    (#[trigger] tagged(receipts@)[i]).0,
                    keys[index as int],
                ),
            forall|k: int, c: Seq<char>|
                0 <= k < index && closing_receipt(#[trigger] trace_of(log, keys[k], c)) is Some
                    ==> tagged(receipts@).contains(
                    (keys[k], closing_receipt(trace_of(log, keys[k], c))->Some_0),
                ),
        decreases count - index,
    {
        let ghost before = receipts@;
        let ghost key = keys[index as int];
        let calls = turns.value_at(index);
        let name = turns.key_at(index);
        proof {
            assert forall|c: Seq<char>| #[trigger]
                calls@.contains_key(c) implies calls@[c]@ == trace_of(log, key, c) by {
                assert(found(turns@, key, c) == trace_of(log, key, c));
            }
            assert forall|c: Seq<char>| #[trigger]
                calls@.contains_key(c) && closing_receipt(
                    calls@[c]@,
                ) is Some implies closing_receipt(calls@[c]@)->Some_0.call_id == c by {
                lemma_trace_ids(log, key, c);
            }
        }
        let closed = close_turn(calls);
        let ghost here = views(closed@);
        let mut next: usize = 0;
        assert(tagged(receipts@) =~= tagged(before) + tag_all(key, here.take(0)));
        while next < closed.len()
            invariant
                next <= closed@.len(),
                here == views(closed@),
                name@ == key,
                tagged(receipts@) == tagged(before) + tag_all(key, here.take(next as int)),
            decreases closed@.len() - next,
        {
            let entry = (TurnId::from_string(name.clone()), closed[next].clone());
            proof {
                assert(here[next as int] == closed@[next as int]@);
                assert(tagged(receipts@.push(entry)) =~= tagged(receipts@).push((key, entry.1@)));
                assert(tag_all(key, here.take(next as int + 1)) =~= tag_all(
                    key,
                    here.take(next as int),
                ).push((key, here[next as int])));
            }
            receipts.push(entry);
            next = next + 1;
        }
        proof {
            assert(here.take(next as int) =~= here);
            let grown = tagged(receipts@);
            let old_len = before.len() as int;
            assert forall|i: int| 0 <= i < old_len implies grown[i] == tagged(before)[i] by {}
            assert forall|i: int| old_len <= i < grown.len() implies grown[i] == (
                key,
                here[i - old_len],
            ) by {}
            assert forall|i: int, j: int| 0 <= i < j < grown.len() implies call_precedes(
                #[trigger] grown[i],
                #[trigger] grown[j],
            ) by {
                if j < old_len {
                    assert(call_precedes(tagged(before)[i], tagged(before)[j]));
                } else if i < old_len {
                    assert(precedes(tagged(before)[i].0, key));
                } else {
                    assert(precedes(here[i - old_len].call_id, here[j - old_len].call_id));
                }
            }
            assert forall|i: int| 0 <= i < grown.len() implies closing_receipt(
                trace_of(log, (#[trigger] grown[i]).0, grown[i].1.call_id),
            ) == Some(grown[i].1) by {
                if i < old_len {
                    assert(tagged(before)[i] == grown[i]);
                } else {
                    let receipt = here[i - old_len];
                    assert(calls@.contains_key(receipt.call_id));
                    assert(calls@[receipt.call_id]@ == trace_of(log, key, receipt.call_id));
                }
            }
            assert forall|i: int|
                0 <= i < grown.len() && index + 1 < count implies precedes(
                (#[trigger] grown[i]).0,
                keys[index + 1],
            ) by {
                assert(precedes(key, keys[index + 1]));
                if i < old_len {
                    assert(precedes(tagged(before)[i].0, key));
                    lemma_precedes_transitive(grown[i].0, key, keys[index + 1]);
                }
            }
            assert forall|k: int, c: Seq<char>|
                0 <= k < index + 1 && closing_receipt(
                    #[trigger] trace_of(log, keys[k], c),
                ) is Some implies grown.contains(
                (keys[k], closing_receipt(trace_of(log, keys[k], c))->Some_0),
            ) by {
                let wanted = (keys[k], closing_receipt(trace_of(log, keys[k], c))->Some_0);
                if k < index {
                    assert(tagged(before).contains(wanted));
                    let n = choose|n: int| 0 <= n < tagged(before).len()
                        && tagged(before)[n] == wanted;
                    assert(grown[n] == wanted);
                } else {
                    assert(found(turns@, key, c) == trace_of(log, key, c));
                    assert(calls@.contains_key(c));
                    assert(here.contains(wanted.1));
                    let n = choose|n: int| 0 <= n < here.len() && here[n] == wanted.1;
                    assert(grown[old_len + n] == wanted);
                }
            }
        }
        index = index + 1;
    }
    proof {
        assert forall|t: Seq<char>, c: Seq<char>|
            closing_receipt(#[trigger] trace_of(log, t, c)) is Some implies tagged(
            receipts@,
        ).contains((t, closing_receipt(trace_of(log, t, c))->Some_0)) by {
            assert(found(turns@, t, c) == trace_of(log, t, c));
            assert(turns@.dom().contains(t));
            assert(keys.to_set().contains(t));
            let k = choose|k: int| 0 <= k < keys.len() && keys[k] == t;
            assert(closing_receipt(trace_of(log, keys[k], c)) is Some);
        }
    }
    receipts
}

/// Whether there is room for everything that a recovery of the thread would record.
pub open spec fn recoverable(log: Seq<EventEnvelopeView>, room: nat) -> bool {
    forall|receipts: Seq<(Seq<char>, ToolReceiptView)>, turns: Seq<Seq<char>>|
        #![trigger closes_calls(log, receipts), lists_open_turns(log, turns)]
        closes_calls(log, receipts) && lists_open_turns(log, turns) ==> receipts.len() + turns.len()
            <= room
}

/// Whether a store's log grew from `before` to `after` by these events of a thread, and by
/// nothing else.
pub open spec fn grew(
    before: Seq<EventEnvelopeView>,
    after: Seq<EventEnvelopeView>,
    thread_id: Seq<char>,
    events: Seq<(Option<Seq<char>>, RuntimeEventView)>,
) -> bool {
    &&& before.is_prefix_of(after)
    &&& bare(after.skip(before.len() as int)) == events
    &&& forall|i: int|
        before.len() <= i < after.len() ==> (#[trigger] after[i]).thread_id == thread_id
}

/// Whether a recovery of a thread took a store's log from `before` to `after` and reported
/// what it recorded.
pub open spec fn recovered(
    before: Seq<EventEnvelopeView>,
    after: Seq<EventEnvelopeView>,
    thread_id: Seq<char>,
    report: RecoveryReportView,
) -> bool {
    exists|receipts: Seq<(Seq<char>, ToolReceiptView)>|
        {
            &&& #[trigger] closes_calls(thread_log(before, thread_id), receipts)
            &&& lists_open_turns(thread_log(before, thread_id), report.turns_marked_failed)
            &&& report.receipts_recorded == receipts.map_values(
                |entry: (Seq<char>, ToolReceiptView)| entry.1,
            )
            &&& grew(
                before,
                after,
                thread_id,
                recovery_events(receipts, report.turns_marked_failed),
            )
        }
}

/// Whether a recovery of a thread that the store ended took the store's log from `before`
/// to `after`: the first of the events that it owed are recorded, and nothing else.
pub open spec fn partly_recovered(
    before: Seq<EventEnvelopeView>,
    after: Seq<EventEnvelopeView>,
    thread_id: Seq<char>,
) -> bool {
    after == before || exists|
        receipts: Seq<(Seq<char>, ToolReceiptView)>,
        turns: Seq<Seq<char>>,
        count: int,
    |
        {
            &&& #[trigger] closes_calls(thread_log(before, thread_id), receipts)
            &&& #[trigger] lists_open_turns(thread_log(before, thread_id), turns)
            &&& 0 <= count <= receipts.len() + turns.len()
            &&& grew(before, after, thread_id, #[trigger] recovery_events(receipts, turns).take(count))
        }
}

/// Whether the store may go from `before` to `after` when it is told to record one event,
/// with the failure that it answers with, if it fails.
pub open spec fn stores<S: EventStore, F: Fn() -> EventStamp>(
    stamp: F,
    thread_id: Seq<char>,
    entry: (Option<Seq<char>>, RuntimeEventView),
    before: S,
    after: S,
    failure: Option<StoreErrorView>,
) -> bool {
    exists|given: EventStamp, recorded: Result<EventEnvelopeView, StoreErrorView>|
        call_ensures(stamp, (), given) && #[trigger] before.appends(
            given@,
            thread_id,
            entry.0,
            entry.1,
            after,
            recorded,
        ) && failure == (match recorded {
            Ok(_) => None,
            Err(error) => Some(error),
        })
}

/// Whether the store may go from one of these states to the next one with an event that a
/// recovery owes.
pub open spec fn stores_next<S: EventStore, F: Fn() -> EventStamp>(
    stamp: F,
    thread_id: Seq<char>,
    owed: Seq<(Option<Seq<char>>, RuntimeEventView)>,
    states: Seq<S>,
    at: int,
) -> bool {
    stores(stamp, thread_id, owed[at], states[at], states[at + 1], None)
}

/// Whether the store may go through these states while it records the first of the events
/// that a recovery owes.
pub open spec fn stores_first<S: EventStore, F: Fn() -> EventStamp>(
    stamp: F,
    thread_id: Seq<char>,
    owed: Seq<(Option<Seq<char>>, RuntimeEventView)>,
    states: Seq<S>,
) -> bool {
    &&& 1 <= states.len() <= owed.len() + 1
    &&& forall|at: int|
        0 <= at < states.len() - 1 ==> #[trigger] stores_next(stamp, thread_id, owed, states, at)
}

/// Whether it was the store that ended a recovery, with this error: it could not load the
/// thread, or it recorded the events that the recovery owed up to one that it answered with
/// the error.
pub open spec fn store_failed<S: EventStore, F: Fn() -> EventStamp>(
    before: S,
    thread_id: &ThreadId,
    stamp: F,
    after: S,
    error: StoreError,
) -> bool {
    ||| after == before && call_ensures(S::load_thread, (&before, thread_id), Err(error))
    ||| exists|
        receipts: Seq<(Seq<char>, ToolReceiptView)>,
        turns: Seq<Seq<char>>,
        states: Seq<S>,
    |
        {
            let owed = recovery_events(receipts, turns);
            &&& closes_calls(thread_log(before.log(), thread_id@), receipts)
            &&& lists_open_turns(thread_log(before.log(), thread_id@), turns)
            &&& #[trigger] stores_first(stamp, thread_id@, recovery_events(receipts, turns), states)
            &&& states.len() <= owed.len()
            &&& states[0] == before
            &&& stores(
                stamp,
                thread_id@,
                owed[states.len() - 1],
                states.last(),
                after,
                Some(error@),
            )
        }
}

/// Closes interrupted protocol edges without replaying side effects.
///
/// Any call with a durable `ToolExecutionStarted` but no durable receipt is
/// recorded as `unknown`. A prepared-but-not-started call is known not to have
/// crossed the executor boundary and is recorded as failed. Every interrupted
/// turn is then terminally marked failed. `stamp` makes the identity and time of
/// each recorded event. A failure of the store, and nothing else, ends the recovery; what
/// was recorded before it stays.
pub fn recover_thread<S: EventStore, F: Fn() -> EventStamp>(
    store: &mut S,
    thread_id: &ThreadId,
    stamp: &F,
) -> (report: Result<RecoveryReport, StoreError>)
    requires
        call_requires(*stamp, ()),
        recoverable(thread_log(old(store).log(), thread_id@), old(store).room()),
    ensures
        match report {
            Ok(done) => recovered(old(store).log(), final(store).log(), thread_id@, done@),
            Err(error) => partly_recovered(
                old(store).log(),
                final(store).log(),
                thread_id@,
            ) && store_failed(*old(store), thread_id, *stamp, *final(store), error),
        },
{
    let ghost whole = store.log();
    let ghost log = thread_log(store.log(), thread_id@);
    let ghost room = store.room();
    let events = match store.load_thread(thread_id) {
        Ok(events) => events,
        Err(error) => {
            assert(call_ensures(S::load_thread, (&*store, thread_id), Err(error)));
            return Err(error);
        },
    };
    let plan = plan_recovery(&events);
    let ghost receipts = tagged(plan.receipts@);
    let ghost turns = views(plan.turns@);
    proof {
        assert(closes_calls(log, receipts) && lists_open_turns(log, turns));
        assert(receipts.len() + turns.len() <= room);
    }
    let mut recorded: Vec<ToolReceipt> = Vec::new();
    let mut index: usize = 0;
    let ghost nothing = Seq::<Seq<char>>::empty();
    let ghost owed = recovery_events(receipts, turns);
    let ghost mut states = seq![*store];
    proof {
        assert(bare(whole.skip(whole.len() as int)) =~= recovery_events(receipts.take(0), nothing));
        assert(views(recorded@) =~= only_receipts(receipts.take(0)));
    }
    while index < plan.receipts.len()
        invariant
            index <= plan.receipts@.len(),
            call_requires(*stamp, ()),
            receipts == tagged(plan.receipts@),
            turns == views(plan.turns@),
            closes_calls(log, receipts),
            lists_open_turns(log, turns),
            log == thread_log(old(store).log(), thread_id@),
            nothing == Seq::<Seq<char>>::empty(),
            owed == recovery_events(receipts, turns),
            stores_first(*stamp, thread_id@, owed, states),
            states[0] == *old(store),
            states.last() == *store,
            states.len() == index + 1,
            whole == old(store).log(),
            store.room() == room - index,
            receipts.len() <= room,
            views(recorded@) == only_receipts(receipts.take(index as int)),
            grew(
                whole,
                store.log(),
                thread_id@,
                recovery_events(receipts.take(index as int), nothing),
            ),
        decreases plan.receipts@.len() - index,
    {
        let ghost before = store.log();
        let ghost standing = *store;
        let turn_id = plan.receipts[index].0.clone();
        let receipt = plan.receipts[index].1.clone();
        let given = stamp();
        let event = RuntimeEvent::ToolReceiptRecorded { receipt: receipt.clone() };
        proof {
            assert(receipts[index as int] == (turn_id@, receipt@));
            assert(owed[index as int] == (Some(turn_id@), event@));
        }
        match store.append(given, thread_id.clone(), Some(turn_id), event) {
            Ok(envelope) => {
                proof {
                    lemma_stores(
                        *stamp,
                        thread_id@,
                        (Some(turn_id@), event@),
                        given,
                        standing,
                        *store,
                        Ok(envelope@),
                    );
                    lemma_stores_next(*stamp, thread_id@, owed, states, *store);
                    states = states.push(*store);
                    lemma_grew(
                        whole,
                        before,
                        thread_id@,
                        recovery_events(receipts.take(index as int), nothing),
                        envelope@,
                    );
                    assert(receipts.take(index as int + 1) =~= receipts.take(index as int).push(
                        receipts[index as int],
                    ));
                    assert(recovery_events(receipts.take(index as int + 1), nothing)
                        =~= recovery_events(receipts.take(index as int), nothing).push(
                        (envelope@.turn_id, envelope@.event),
                    ));
                    lemma_views_push(recorded@, receipt);
                    assert(only_receipts(receipts.take(index as int + 1)) =~= only_receipts(
                        receipts.take(index as int),
                    ).push(receipt@));
                }
            },
            Err(error) => {
                proof {
                    lemma_stores(
                        *stamp,
                        thread_id@,
                        (Some(turn_id@), event@),
                        given,
                        standing,
                        *store,
                        Err(error@),
                    );
                    assert(recovery_events(receipts.take(index as int), nothing) =~= owed.take(
                        index as int,
                    ));
                }
                return Err(error);
            },
        }
        recorded.push(receipt);
        index = index + 1;
    }
    proof {
        assert(receipts.take(index as int) =~= receipts);
        assert(turns.take(0) =~= nothing);
    }
    let mut next: usize = 0;
    while next < plan.turns.len()
        invariant
            next <= plan.turns@.len(),
            call_requires(*stamp, ()),
            turns == views(plan.turns@),
            closes_calls(log, receipts),
            lists_open_turns(log, turns),
            log == thread_log(old(store).log(), thread_id@),
            owed == recovery_events(receipts, turns),
            stores_first(*stamp, thread_id@, owed, states),
            states[0] == *old(store),
            states.last() == *store,
            states.len() == receipts.len() + next + 1,
            whole == old(store).log(),
            store.room() == room - receipts.len() - next,
            receipts.len() + turns.len() <= room,
            grew(
                whole,
                store.log(),
                thread_id@,
                recovery_events(receipts, turns.take(next as int)),
            ),
        decreases plan.turns@.len() - next,
    {
        let ghost before = store.log();
        let ghost standing = *store;
        let turn_id = plan.turns[next].clone();
        let given = stamp();
        let event = RuntimeEvent::TurnFailed {
            error: "turn was interrupted and recovered without replaying actions".to_owned(),
        };
        proof {
            assert(turns[next as int] == turn_id@);
            assert(owed[states.len() - 1] == (Some(turn_id@), event@));
        }
        match store.append(given, thread_id.clone(), Some(turn_id), event) {
            Ok(envelope) => {
                proof {
                    lemma_stores(
                        *stamp,
                        thread_id@,
                        (Some(turn_id@), event@),
                        given,
                        standing,
                        *store,
                        Ok(envelope@),
                    );
                    lemma_stores_next(*stamp, thread_id@, owed, states, *store);
                    states = states.push(*store);
                    lemma_grew(
                        whole,
                        before,
                        thread_id@,
                        recovery_events(receipts, turns.take(next as int)),
                        envelope@,
                    );
                    assert(turns.take(next as int + 1) =~= turns.take(next as int).push(
                        turns[next as int],
                    ));
                    assert(recovery_events(receipts, turns.take(next as int + 1))
                        =~= recovery_events(receipts, turns.take(next as int)).push(
                        (envelope@.turn_id, envelope@.event),
                    ));
                }
            },
            Err(error) => {
                proof {
                    lemma_stores(
                        *stamp,
                        thread_id@,
                        (Some(turn_id@), event@),
                        given,
                        standing,
                        *store,
                        Err(error@),
                    );
                    let count = receipts.len() + next as int;
                    assert(recovery_events(receipts, turns.take(next as int)) =~= owed.take(count));
                }
                return Err(error);
            },
        }
        next = next + 1;
    }
    assert(turns.take(next as int) =~= turns);
    let report = RecoveryReport { receipts_recorded: recorded, turns_marked_failed: plan.turns };
    proof {
        assert(report@.receipts_recorded =~= receipts.map_values(
            |entry: (Seq<char>, ToolReceiptView)| entry.1,
        ));
        assert(closes_calls(log, receipts));
    }
    Ok(report)
}

proof fn lemma_stores<S: EventStore, F: Fn() -> EventStamp>(
    stamp: F,
    thread_id: Seq<char>,
    entry: (Option<Seq<char>>, RuntimeEventView),
    given: EventStamp,
    before: S,
    after: S,
    recorded: Result<EventEnvelopeView, StoreErrorView>,
)
    requires
        call_ensures(stamp, (), given),
        before.appends(given@, thread_id, entry.0, entry.1, after, recorded),
    ensures
        stores(
            stamp,
            thread_id,
            entry,
            before,
            after,
            match recorded {
                Ok(_) => None,
                Err(error) => Some(error),
            },
        ),
{
}

proof fn lemma_stores_next<S: EventStore, F: Fn() -> EventStamp>(
    stamp: F,
    thread_id: Seq<char>,
    owed: Seq<(Option<Seq<char>>, RuntimeEventView)>,
    states: Seq<S>,
    after: S,
)
    requires
        stores_first(stamp, thread_id, owed, states),
        states.len() <= owed.len(),
        stores(stamp, thread_id, owed[states.len() - 1], states.last(), after, None),
    ensures
        stores_first(stamp, thread_id, owed, states.push(after)),
{
    let grown = states.push(after);
    assert forall|at: int| 0 <= at < grown.len() - 1 implies #[trigger] stores_next(
        stamp,
        thread_id,
        owed,
        grown,
        at,
    ) by {
        if at < states.len() - 1 {
            assert(stores_next(stamp, thread_id, owed, states, at));
        }
    }
}

spec fn only_receipts(receipts: Seq<(Seq<char>, ToolReceiptView)>) -> Seq<ToolReceiptView> {
    receipts.map_values(|entry: (Seq<char>, ToolReceiptView)| entry.1)
}

proof fn lemma_grew(
    before: Seq<EventEnvelopeView>,
    after: Seq<EventEnvelopeView>,
    thread_id: Seq<char>,
    events: Seq<(Option<Seq<char>>, RuntimeEventView)>,
    envelope: EventEnvelopeView,
)
    requires
        grew(before, after, thread_id, events),
        envelope.thread_id == thread_id,
    ensures
        grew(
            before,
            after.push(envelope),
            thread_id,
            events.push((envelope.turn_id, envelope.event)),
        ),
{
    let start = before.len() as int;
    assert(after.push(envelope).skip(start) =~= after.skip(start).push(envelope));
    assert(bare(after.push(envelope).skip(start)) =~= events.push(
        (envelope.turn_id, envelope.event),
    ));
}

/// A recovery adds its events to the log of its thread and leaves the logs of other
/// threads as they are.
pub proof fn law_recovery_touches_only_its_thread(
    before: Seq<EventEnvelopeView>,
    after: Seq<EventEnvelopeView>,
    thread_id: Seq<char>,
    events: Seq<(Option<Seq<char>>, RuntimeEventView)>,
    other: Seq<char>,
)
    requires
        grew(before, after, thread_id, events),
    ensures
        thread_log(after, thread_id) == thread_log(before, thread_id) + after.skip(
            before.len() as int,
        ),
        other != thread_id ==> thread_log(after, other) == thread_log(before, other),
    decreases after.len(),
{
    let start = before.len() as int;
    if after.len() == start {
        assert(after =~= before);
        assert(thread_log(before, thread_id) + after.skip(start) =~= thread_log(before, thread_id));
    } else {
        let front = after.drop_last();
        assert(after == front.push(after.last()));
        assert(after[after.len() - 1].thread_id == thread_id);
        assert(grew(before, front, thread_id, bare(front.skip(start)))) by {
            assert forall|i: int| start <= i < front.len() implies (#[trigger] front[i]).thread_id
                == thread_id by {
                assert(front[i] == after[i]);
            }
        }
        law_recovery_touches_only_its_thread(
            before,
            front,
            thread_id,
            bare(front.skip(start)),
            other,
        );
        lemma_thread_log_push(front, after.last(), thread_id);
        lemma_thread_log_push(front, after.last(), other);
        assert(after.skip(start) =~= front.skip(start).push(after.last()));
        assert(thread_log(after, thread_id) =~= thread_log(before, thread_id) + after.skip(start));
    }
}

/// A second recovery of a thread appends no event at all and reports nothing, where no
/// event of the thread was recorded since the first one.
pub proof fn law_second_recovery_appends_nothing(
    before: Seq<EventEnvelopeView>,
    after: Seq<EventEnvelopeView>,
    later: Seq<EventEnvelopeView>,
    last: Seq<EventEnvelopeView>,
    thread_id: Seq<char>,
    first: RecoveryReportView,
    second: RecoveryReportView,
)
    requires
        recovered(before, after, thread_id, first),
        thread_log(later, thread_id) == thread_log(after, thread_id),
        recovered(later, last, thread_id, second),
    ensures
        last == later,
        second.receipts_recorded.len() == 0,
        second.turns_marked_failed.len() == 0,
{
    let receipts = choose|receipts: Seq<(Seq<char>, ToolReceiptView)>|
        {
            &&& #[trigger] closes_calls(thread_log(before, thread_id), receipts)
            &&& grew(
                before,
                after,
                thread_id,
                recovery_events(receipts, first.turns_marked_failed),
            )
        };
    let events = thread_log(before, thread_id);
    let recorded = after.skip(before.len() as int);
    law_recovery_touches_only_its_thread(
        before,
        after,
        thread_id,
        recovery_events(receipts, first.turns_marked_failed),
        thread_id,
    );
    law_recovery_is_idempotent(events, recorded, receipts, first.turns_marked_failed);
    let log = thread_log(later, thread_id);
    let again = choose|again: Seq<(Seq<char>, ToolReceiptView)>|
        {
            &&& #[trigger] closes_calls(log, again)
            &&& second.receipts_recorded == again.map_values(
                |entry: (Seq<char>, ToolReceiptView)| entry.1,
            )
            &&& grew(
                later,
                last,
                thread_id,
                recovery_events(again, second.turns_marked_failed),
            )
        };
    if again.len() > 0 {
        let entry = again[0];
        assert(closing_receipt(trace_of(log, entry.0, entry.1.call_id)) == Some(entry.1));
        assert(Seq::<(Seq<char>, ToolReceiptView)>::empty().contains(entry));
    }
    if second.turns_marked_failed.len() > 0 {
        let turn_id = second.turns_marked_failed[0];
        assert(second.turns_marked_failed.contains(turn_id));
        assert(Seq::<Seq<char>>::empty().contains(turn_id));
    }
    let owed = recovery_events(again, second.turns_marked_failed);
    assert(owed.len() == 0);
    assert(bare(last.skip(later.len() as int)).len() == last.len() - later.len());
    assert(last =~= later);
}

spec fn tag_all(turn_id: Seq<char>, receipts: Seq<ToolReceiptView>) -> Seq<
    (Seq<char>, ToolReceiptView),
> {
    receipts.map_values(|receipt: ToolReceiptView| (turn_id, receipt))
}

} // verus!
