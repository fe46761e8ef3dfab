//! What journals keep, and what recovery makes of them.

use vstd::prelude::*;

use crate::event::{EventEnvelope, EventEnvelopeView, RuntimeEventView};
use crate::protocol::{ReceiptStatus, ToolCallView, ToolReceiptView};
use crate::recovery::{
    bare, closes_calls, closing_receipt, grew, last_request, lists_open_turns, recovered,
    recovery_events, trace_of, turn_open, RecoveryReportView,
};
use crate::store::{
    appended, by_number, bytes_of, envelope_of, event_written, journal_line_of, journal_lines_of,
    journals, law_journal_is_ordered, line_feed, nothing_scanned, opened, scan_of, thread_log,
    DecodedEventView, EventStampView, JournalLine, JournalScanView, JournalView, StoreErrorView,
    WriteOutcome,
};

verus! {

// ---------------------------------------------------------------------------
// Journals
// ---------------------------------------------------------------------------

/// A record keeps what it was given: its number, the identity and the time of its stamp, its
/// thread, its turn and its event.
pub proof fn law_records_keep_what_they_were_given(
    sequence: u64,
    stamp: EventStampView,
    thread_id: Seq<char>,
    turn_id: Option<Seq<char>>,
    event: RuntimeEventView,
)
    ensures
        ({
            let record = envelope_of(sequence, stamp, thread_id, turn_id, event);
            &&& record.id == stamp.id
            &&& record.sequence == sequence
            &&& record.at_unix_ms == stamp.at_unix_ms
            &&& record.thread_id == thread_id
            &&& record.turn_id == turn_id
            &&& record.event == event
        }),
{
}

/// The log of a thread is the log without the events of other threads: none of its own is
/// missing, none is changed, and they keep their order.
pub proof fn law_thread_logs_hold_the_thread(log: Seq<EventEnvelopeView>, thread_id: Seq<char>)
    ensures
        thread_log(log, thread_id) == log.filter(
            |record: EventEnvelopeView| record.thread_id == thread_id,
        ),
    decreases log.len(),
{
    reveal(Seq::filter);
    if log.len() > 0 {
        law_thread_logs_hold_the_thread(log.drop_last(), thread_id);
    }
}

/// What is recorded in one thread shows in that thread, behind what was there, and in no
/// other.
pub proof fn law_appends_show_in_their_thread(
    log: Seq<EventEnvelopeView>,
    record: EventEnvelopeView,
    other: Seq<char>,
)
    ensures
        thread_log(log.push(record), record.thread_id) == thread_log(log, record.thread_id).push(
            record,
        ),
        other != record.thread_id ==> thread_log(log.push(record), other) == thread_log(
            log,
            other,
        ),
{
    assert(log.push(record).drop_last() =~= log);
}

/// A durable append puts the record behind the others and moves on to the next number; any
/// other leaves the log and the number alone. Only a write that failed bars later writes.
pub proof fn law_appends_move_the_number_on(
    journal: JournalView,
    record: EventEnvelopeView,
    outcome: WriteOutcome,
)
    requires
        journal.next < u64::MAX,
        !journal.write_failed,
    ensures
        ({
            let (after, answer) = appended(journal, record, outcome);
            &&& outcome is Durable <==> answer is Ok
            &&& answer matches Ok(told) ==> told == record && after.log == journal.log.push(record)
                && after.next == journal.next + 1
            &&& answer is Err ==> after.log == journal.log && after.next == journal.next
            &&& after.write_failed <==> outcome is Failed
        }),
{
}

/// A journal that was opened holds the events of its file, and its next number is greater than
/// each of theirs.
pub proof fn law_opened_journals_go_on_behind_the_last_number(
    events: Seq<EventEnvelopeView>,
    index: int,
)
    requires
        0 <= index < events.len(),
        forall|i: int| 0 <= i < events.len() ==> (#[trigger] events[i]).sequence < u64::MAX,
    ensures
        opened(events).log.to_multiset() == events.to_multiset(),
        events[index].sequence < opened(events).next,
        !opened(events).write_failed,
        opened(Seq::empty()).next == 0,
{
    broadcast use vstd::seq_lib::group_to_multiset_ensures;

    law_journal_is_ordered(events);
    let sorted = by_number(events);
    assert(events.to_multiset().contains(events[index]));
    assert(sorted.to_multiset().contains(events[index]));
    assert(sorted.contains(events[index]));
    let at = choose|at: int| 0 <= at < sorted.len() && sorted[at] == events[index];
    if at < sorted.len() - 1 {
        assert(sorted[at].sequence <= sorted[sorted.len() - 1].sequence);
    }
    assert(sorted.to_multiset().contains(sorted.last()));
    assert(events.to_multiset().contains(sorted.last()));
    assert(events.contains(sorted.last()));
    let k = choose|k: int| 0 <= k < events.len() && events[k] == sorted.last();
    assert(events[k].sequence < u64::MAX);
}

/// The events among the first lines of a file.
pub open spec fn records_among(
    lines: Seq<JournalLine>,
    decoded: Seq<DecodedEventView>,
    count: int,
) -> Seq<EventEnvelopeView>
    decreases count,
{
    if count <= 0 {
        Seq::empty()
    } else {
        let earlier = records_among(lines, decoded, count - 1);
        match decoded[count - 1] {
            DecodedEventView::Record(event) => if lines[count - 1].blank {
                earlier
            } else {
                earlier.push(event)
            },
            _ => earlier,
        }
    }
}

proof fn lemma_clean_scan(
    lines: Seq<JournalLine>,
    decoded: Seq<DecodedEventView>,
    at: int,
    so_far: JournalScanView,
)
    requires
        0 <= at <= lines.len(),
        lines.len() == decoded.len(),
        forall|i: int|
            0 <= i < lines.len() ==> (#[trigger] lines[i]).blank || decoded[i] is Record,
        so_far.events == records_among(lines, decoded, at),
        so_far.valid_bytes == bytes_of(lines, at),
        so_far.torn_line is None,
        so_far.needs_newline == (at > 0 && !lines[at - 1].terminated),
    ensures
        scan_of(lines, decoded, at, so_far) matches Ok(scan) && scan.events == records_among(
            lines,
            decoded,
            lines.len() as int,
        ) && scan.valid_bytes == bytes_of(lines, lines.len() as int) && scan.torn_line is None
            && scan.needs_newline == (lines.len() > 0 && !lines.last().terminated),
    decreases lines.len() - at,
{
    if at < lines.len() {
        let line = lines[at];
        let passed = JournalScanView {
            valid_bytes: so_far.valid_bytes + line.length as nat,
            needs_newline: !line.terminated,
            ..so_far
        };
        if line.blank {
            lemma_clean_scan(lines, decoded, at + 1, passed);
        } else {
            match decoded[at] {
                DecodedEventView::Record(event) => {
                    lemma_clean_scan(
                        lines,
                        decoded,
                        at + 1,
                        JournalScanView { events: so_far.events.push(event), ..passed },
                    );
                },
                _ => {},
            }
        }
    }
}

/// A file whose lines are records or blank is read whole: every record in its order, every
/// byte counted, nothing torn.
pub proof fn law_clean_files_are_read_whole(
    lines: Seq<JournalLine>,
    decoded: Seq<DecodedEventView>,
)
    requires
        lines.len() == decoded.len(),
        forall|i: int|
            0 <= i < lines.len() ==> (#[trigger] lines[i]).blank || decoded[i] is Record,
    ensures
        scan_of(lines, decoded, 0, nothing_scanned()) matches Ok(scan) && scan.events
            == records_among(lines, decoded, lines.len() as int) && scan.valid_bytes == bytes_of(
            lines,
            lines.len() as int,
        ) && scan.torn_line is None && scan.needs_newline == (lines.len() > 0
            && !lines.last().terminated),
{
    lemma_clean_scan(lines, decoded, 0, nothing_scanned());
}

proof fn lemma_broken_scan(
    lines: Seq<JournalLine>,
    decoded: Seq<DecodedEventView>,
    at: int,
    place: int,
    so_far: JournalScanView,
)
    requires
        0 <= at <= place < lines.len(),
        place < usize::MAX,
        lines.len() == decoded.len(),
        forall|i: int| at <= i < place ==> (#[trigger] lines[i]).blank || decoded[i] is Record,
        !lines[place].blank,
        decoded[place] matches DecodedEventView::Broken { incomplete, .. } && (!incomplete
            || lines[place].terminated),
    ensures
        scan_of(lines, decoded, at, so_far) == Err::<JournalScanView, StoreErrorView>(
            StoreErrorView::Corrupt {
                line: (place + 1) as usize,
                message: decoded[place]->message,
            },
        ),
    decreases place - at,
{
    if at < place {
        assert(lines[at].blank || decoded[at] is Record);
        let line = lines[at];
        let passed = JournalScanView {
            valid_bytes: so_far.valid_bytes + line.length as nat,
            needs_newline: !line.terminated,
            ..so_far
        };
        if line.blank {
            lemma_broken_scan(lines, decoded, at + 1, place, passed);
        } else {
            lemma_broken_scan(
                lines,
                decoded,
                at + 1,
                place,
                JournalScanView {
                    events: so_far.events.push(decoded[at]->Record_0),
                    ..passed
                },
            );
        }
    }
}

/// The first record that is broken, other than an incomplete one without its line feed, makes
/// the file corrupt, and the answer names its line, counted from one.
pub proof fn law_broken_records_are_named(
    lines: Seq<JournalLine>,
    decoded: Seq<DecodedEventView>,
    place: int,
)
    requires
        0 <= place < lines.len(),
        place < usize::MAX,
        lines.len() == decoded.len(),
        forall|i: int| 0 <= i < place ==> (#[trigger] lines[i]).blank || decoded[i] is Record,
        !lines[place].blank,
        decoded[place] matches DecodedEventView::Broken { incomplete, .. } && (!incomplete
            || lines[place].terminated),
    ensures
        scan_of(lines, decoded, 0, nothing_scanned()) matches Err(StoreErrorView::Corrupt {
            line,
            message,
        }) && line == place + 1 && message == decoded[place]->message,
{
    lemma_broken_scan(lines, decoded, 0, place, nothing_scanned());
}

proof fn lemma_line_feed(bytes: Seq<u8>, from: int)
    requires
        0 <= from <= bytes.len(),
    ensures
        from <= line_feed(bytes, from) <= bytes.len(),
        line_feed(bytes, from) < bytes.len() ==> bytes[line_feed(bytes, from)] == 0xa,
        forall|i: int| from <= i < line_feed(bytes, from) ==> bytes[i] != 0xa,
    decreases bytes.len() - from,
{
    if from < bytes.len() && bytes[from] != 0xa {
        lemma_line_feed(bytes, from + 1);
    }
}

/// The lines of a file follow each other without a gap, from its first byte to its last. Each
/// has one line feed at most, as its last byte, and all but the last one have theirs.
pub proof fn law_lines_make_up_the_file(bytes: Seq<u8>, from: int)
    requires
        0 <= from <= bytes.len() <= usize::MAX,
    ensures
        ({
            let lines = journal_lines_of(bytes, from);
            &&& (from < bytes.len() ==> lines.len() > 0 && lines[0].start == from)
            &&& forall|i: int|
                0 <= i < lines.len() ==> {
                    let line = #[trigger] lines[i];
                    let end = line.start + line.length;
                    &&& line.length > 0
                    &&& end <= bytes.len()
                    &&& (i + 1 < lines.len() ==> lines[i + 1].start == end && line.terminated)
                    &&& (i + 1 == lines.len() ==> end == bytes.len())
                    &&& line.terminated == (bytes[end - 1] == 0xa)
                    &&& forall|k: int| line.start <= k < end - 1 ==> bytes[k] != 0xa
                }
        }),
    decreases bytes.len() - from,
{
    if from < bytes.len() {
        lemma_line_feed(bytes, from);
        let end = line_feed(bytes, from);
        if end < bytes.len() {
            law_lines_make_up_the_file(bytes, end + 1);
            let rest = journal_lines_of(bytes, end + 1);
            let lines = journal_lines_of(bytes, from);
            assert(lines =~= seq![journal_line_of(bytes, from, end + 1)] + rest);
            assert forall|i: int| 0 <= i < lines.len() implies {
                let line = #[trigger] lines[i];
                let end = line.start + line.length;
                &&& line.length > 0
                &&& end <= bytes.len()
                &&& (i + 1 < lines.len() ==> lines[i + 1].start == end && line.terminated)
                &&& (i + 1 == lines.len() ==> end == bytes.len())
                &&& line.terminated == (bytes[end - 1] == 0xa)
                &&& forall|k: int| line.start <= k < end - 1 ==> bytes[k] != 0xa
            } by {
                if i > 0 {
                    assert(lines[i] == rest[i - 1]);
                    if i + 1 < lines.len() {
                        assert(lines[i + 1] == rest[i]);
                    }
                } else {
                    if lines.len() > 1 {
                        assert(lines[1] == rest[0]);
                    } else if end + 1 < bytes.len() {
                        assert(rest.len() > 0);
                    }
                }
            }
        }
    }
}

// ---------------------------------------------------------------------------
// Recovery
// ---------------------------------------------------------------------------

/// Whether a record tells that a call was asked for.
pub open spec fn asked_in(record: EventEnvelopeView, turn_id: Seq<char>, call_id: Seq<char>) -> bool {
    record.turn_id == Some(turn_id) && (record.event matches RuntimeEventView::AssistantMessage {
        tool_calls,
        ..
    } && exists|k: int| 0 <= k < tool_calls.len() && (#[trigger] tool_calls[k]).id == call_id)
}

/// Whether a record tells that a call was prepared.
pub open spec fn prepared_in(
    record: EventEnvelopeView,
    turn_id: Seq<char>,
    call_id: Seq<char>,
) -> bool {
    record.turn_id == Some(turn_id) && (record.event matches RuntimeEventView::ToolPrepared {
        prepared,
    } && prepared.call_id == call_id)
}

/// Whether a record tells that the execution of a call was begun.
pub open spec fn started_in(
    record: EventEnvelopeView,
    turn_id: Seq<char>,
    call_id: Seq<char>,
) -> bool {
    record.turn_id == Some(turn_id) && (record.event matches RuntimeEventView::ToolExecutionStarted {
        prepared,
    } && prepared.call_id == call_id)
}

/// Whether a record is the receipt of a call.
pub open spec fn closed_in(
    record: EventEnvelopeView,
    turn_id: Seq<char>,
    call_id: Seq<char>,
) -> bool {
    record.turn_id == Some(turn_id) && (record.event matches RuntimeEventView::ToolReceiptRecorded {
        receipt,
    } && receipt.call_id == call_id)
}

proof fn lemma_last_request(
    calls: Seq<ToolCallView>,
    call_id: Seq<char>,
    before: Option<ToolCallView>,
)
    ensures
        (exists|k: int| 0 <= k < calls.len() && (#[trigger] calls[k]).id == call_id)
            ==> last_request(calls, call_id, before) is Some && last_request(
            calls,
            call_id,
            before,
        )->0.id == call_id,
        !(exists|k: int| 0 <= k < calls.len() && (#[trigger] calls[k]).id == call_id)
            ==> last_request(calls, call_id, before) == before,
    decreases calls.len(),
{
    if calls.len() > 0 {
        let front = calls.drop_last();
        lemma_last_request(front, call_id, before);
        if exists|k: int| 0 <= k < calls.len() && (#[trigger] calls[k]).id == call_id {
            let k = choose|k: int| 0 <= k < calls.len() && (#[trigger] calls[k]).id == call_id;
            if k < front.len() {
                assert(front[k].id == call_id);
            }
        } else {
            assert forall|k: int| 0 <= k < front.len() implies (#[trigger] front[k]).id
                != call_id by {
                assert(front[k] == calls[k]);
            }
            assert(calls[calls.len() - 1].id != call_id);
        }
    }
}

/// The trace of a call tells what the events of its turn tell: whether it was asked for,
/// prepared, begun and closed, under its own id.
pub proof fn law_traces_tell_what_happened(
    events: Seq<EventEnvelopeView>,
    turn_id: Seq<char>,
    call_id: Seq<char>,
)
    ensures
        ({
            let trace = trace_of(events, turn_id, call_id);
            &&& trace.requested is Some <==> exists|i: int|
                0 <= i < events.len() && asked_in(#[trigger] events[i], turn_id, call_id)
            &&& trace.prepared is Some <==> exists|i: int|
                0 <= i < events.len() && prepared_in(#[trigger] events[i], turn_id, call_id)
            &&& trace.started is Some <==> exists|i: int|
                0 <= i < events.len() && started_in(#[trigger] events[i], turn_id, call_id)
            &&& trace.completed <==> exists|i: int|
                0 <= i < events.len() && closed_in(#[trigger] events[i], turn_id, call_id)
            &&& trace.requested matches Some(call) ==> call.id == call_id
            &&& trace.prepared matches Some(prepared) ==> prepared.call_id == call_id
            &&& trace.started matches Some(prepared) ==> prepared.call_id == call_id
        }),
    decreases events.len(),
{
    if events.len() > 0 {
        let front = events.drop_last();
        let last = events.last();
        law_traces_tell_what_happened(front, turn_id, call_id);
        assert(events[events.len() - 1] == last);
        assert forall|i: int| 0 <= i < front.len() implies #[trigger] events[i] == front[i] by {}
        assert forall|i: int| 0 <= i < front.len() implies #[trigger] front[i] == events[i] by {}
        match last.event {
            RuntimeEventView::AssistantMessage { tool_calls, .. } => {
                lemma_last_request(
                    tool_calls,
                    call_id,
                    trace_of(front, turn_id, call_id).requested,
                );
            },
            _ => {},
        }
        let before = trace_of(front, turn_id, call_id);
        let trace = trace_of(events, turn_id, call_id);
        if before.requested is Some {
            let i = choose|i: int|
                0 <= i < front.len() && asked_in(#[trigger] front[i], turn_id, call_id);
            assert(asked_in(events[i], turn_id, call_id));
        }
        if before.prepared is Some {
            let i = choose|i: int|
                0 <= i < front.len() && prepared_in(#[trigger] front[i], turn_id, call_id);
            assert(prepared_in(events[i], turn_id, call_id));
        }
        if before.started is Some {
            let i = choose|i: int|
                0 <= i < front.len() && started_in(#[trigger] front[i], turn_id, call_id);
            assert(started_in(events[i], turn_id, call_id));
        }
        if before.completed {
            let i = choose|i: int|
                0 <= i < front.len() && closed_in(#[trigger] front[i], turn_id, call_id);
            assert(closed_in(events[i], turn_id, call_id));
        }
    }
}

/// A call without a receipt gets one under its own id: unknown, with its action, where its
/// execution was begun; failed, with its action, where it was prepared and not begun; failed
/// without an action where it was only asked for. A closed call gets none.
pub proof fn law_open_calls_get_the_right_receipt(
    events: Seq<EventEnvelopeView>,
    turn_id: Seq<char>,
    call_id: Seq<char>,
)
    ensures
        ({
            let begun = exists|i: int|
                0 <= i < events.len() && started_in(#[trigger] events[i], turn_id, call_id);
            let ready = exists|i: int|
                0 <= i < events.len() && prepared_in(#[trigger] events[i], turn_id, call_id);
            let asked = exists|i: int|
                0 <= i < events.len() && asked_in(#[trigger] events[i], turn_id, call_id);
            let closed = exists|i: int|
                0 <= i < events.len() && closed_in(#[trigger] events[i], turn_id, call_id);
            let found = closing_receipt(trace_of(events, turn_id, call_id));
            &&& found is Some <==> !closed && (begun || ready || asked)
            &&& found matches Some(receipt) ==> {
                &&& receipt.call_id == call_id
                &&& receipt.output is None
                &&& receipt.error is Some
                &&& receipt.status == (if begun {
                    ReceiptStatus::Unknown
                } else {
                    ReceiptStatus::Failed
                })
                &&& receipt.action is Some <==> begun || ready
                &&& receipt.action matches Some(action) ==> receipt.tool_name == action.tool_name
            }
        }),
{
    law_traces_tell_what_happened(events, turn_id, call_id);
}

/// A turn is open from its start to its end: each start opens it, and a completion, a failure
/// or a cancellation closes it. Events of other turns, and all others of its own, change
/// nothing.
pub proof fn law_turns_are_open_until_they_end(
    events: Seq<EventEnvelopeView>,
    record: EventEnvelopeView,
    turn_id: Seq<char>,
)
    ensures
        !turn_open(Seq::empty(), turn_id),
        record.turn_id != Some(turn_id) ==> turn_open(events.push(record), turn_id) == turn_open(
            events,
            turn_id,
        ),
        record.turn_id == Some(turn_id) && record.event is TurnStarted ==> turn_open(
            events.push(record),
            turn_id,
        ),
        record.turn_id == Some(turn_id) && (record.event is TurnCompleted
            || record.event is TurnFailed || record.event is TurnCancelled) ==> !turn_open(
            events.push(record),
            turn_id,
        ),
        !(record.event is TurnStarted || record.event is TurnCompleted || record.event is TurnFailed
            || record.event is TurnCancelled) ==> turn_open(events.push(record), turn_id)
            == turn_open(events, turn_id),
{
    assert(events.push(record).drop_last() =~= events);
}

/// Recovery records each receipt in its own turn and as it is, and then the failure of each
/// open turn in that turn; nothing else.
pub proof fn law_recovery_records_what_it_owes(
    receipts: Seq<(Seq<char>, ToolReceiptView)>,
    turns: Seq<Seq<char>>,
)
    ensures
        ({
            let events = recovery_events(receipts, turns);
            &&& events.len() == receipts.len() + turns.len()
            &&& forall|i: int|
                0 <= i < receipts.len() ==> (#[trigger] events[i]).0 == Some(receipts[i].0)
                    && events[i].1 == (RuntimeEventView::ToolReceiptRecorded {
                    receipt: receipts[i].1,
                })
            &&& forall|i: int|
                receipts.len() <= i < events.len() ==> (#[trigger] events[i]).0 == Some(
                    turns[i - receipts.len()],
                ) && events[i].1 is TurnFailed
        }),
{
}

// ---------------------------------------------------------------------------
// Appends
// ---------------------------------------------------------------------------

/// An append that succeeds wrote the very record that it answers with and that the journal then
/// ends with. A journal behind a partial record refuses, writes nothing and stays as it is.
pub proof fn law_appends_write_what_they_answer<W: Fn(EventEnvelope) -> WriteOutcome>(
    write: W,
    before: JournalView,
    record: EventEnvelopeView,
    after: JournalView,
    recorded: Result<EventEnvelopeView, StoreErrorView>,
)
    requires
        journals(write, before, record, after, recorded),
    ensures
        before.write_failed ==> after == before && recorded is Err,
        recorded matches Ok(told) ==> told == record && after.log == before.log.push(record)
            && exists|line: EventEnvelope, outcome: WriteOutcome|
            line@ == record && outcome is Durable && #[trigger] call_ensures(
                write,
                (line,),
                outcome,
            ),
        recorded is Err ==> after.log == before.log,
{
    if !before.write_failed {
        let outcome = choose|outcome: WriteOutcome| #[trigger]
            event_written(write, record, outcome) && (after, recorded) == appended(
                before,
                record,
                outcome,
            );
        let line = choose|line: EventEnvelope|
            line@ == record && #[trigger] call_ensures(write, (line,), outcome);
        assert(call_ensures(write, (line,), outcome));
    }
}

/// A recovery that is reported recorded what the report tells: each receipt that is listed, in the
/// order of the list, and behind them the failure of each turn that is listed. A turn is listed
/// where it was open.
pub proof fn law_reports_tell_what_was_recorded(
    before: Seq<EventEnvelopeView>,
    after: Seq<EventEnvelopeView>,
    thread_id: Seq<char>,
    report: RecoveryReportView,
)
    requires
        recovered(before, after, thread_id, report),
    ensures
        ({
            let receipts = report.receipts_recorded;
            let turns = report.turns_marked_failed;
            let old_len = before.len() as int;
            &&& before.is_prefix_of(after)
            &&& after.len() == before.len() + receipts.len() + turns.len()
            &&& forall|i: int|
                0 <= i < receipts.len() ==> after[old_len + i].event == (
                RuntimeEventView::ToolReceiptRecorded { receipt: #[trigger] receipts[i] })
            &&& forall|i: int|
                0 <= i < turns.len() ==> after[old_len + receipts.len() + i].turn_id == Some(
                    #[trigger] turns[i],
                ) && after[old_len + receipts.len() + i].event is TurnFailed
            &&& forall|i: int|
                old_len <= i < after.len() ==> (#[trigger] after[i]).thread_id == thread_id
            &&& forall|turn_id: Seq<char>| #[trigger]
                turns.contains(turn_id) <==> turn_open(thread_log(before, thread_id), turn_id)
        }),
{
    let receipts = choose|receipts: Seq<(Seq<char>, ToolReceiptView)>|
        {
            &&& #[trigger] closes_calls(thread_log(before, thread_id), receipts)
            &&& lists_open_turns(thread_log(before, thread_id), report.turns_marked_failed)
            &&& report.receipts_recorded == receipts.map_values(
                |entry: (Seq<char>, ToolReceiptView)| entry.1,
            )
            &&& grew(
                before,
                after,
                thread_id,
                recovery_events(receipts, report.turns_marked_failed),
            )
        };
    let turns = report.turns_marked_failed;
    let events = recovery_events(receipts, turns);
    let old_len = before.len() as int;
    let news = bare(after.skip(old_len));
    law_recovery_records_what_it_owes(receipts, turns);
    assert(news == events);
    assert(news.len() == after.len() - old_len);
    assert forall|i: int| 0 <= i < receipts.len() implies after[old_len + i].event == (
    RuntimeEventView::ToolReceiptRecorded { receipt: #[trigger] report.receipts_recorded[i] }) by {
        assert(news[i] == events[i]);
    }
    assert forall|i: int| 0 <= i < turns.len() implies after[old_len + receipts.len() + i].turn_id
        == Some(#[trigger] turns[i]) && after[old_len + receipts.len() + i].event is TurnFailed by {
        assert(news[receipts.len() + i] == events[receipts.len() + i]);
    }
}

} // verus!
