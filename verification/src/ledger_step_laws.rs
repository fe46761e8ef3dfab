//! What each operation of a ledger does to its tasks.

use vstd::prelude::*;

use crate::json::JsonView;
use crate::ledger::{
    claimed_before, event_task, fresh_task, giving_up, holds, lease_expired, lease_of,
    ledger_appended, ledger_applied, ledger_line_of, ledger_replayed, next_in_line, performs,
    planned_acknowledgement, planned_cancel, planned_finish, planned_heartbeat, status_name,
    submitted_before, waits, wrote, DeliveryState, LedgerEnvelope, LedgerEnvelopeView,
    LedgerErrorView, LedgerEventView, LedgerLineView, LedgerView, TaskLeaseView, TaskRecordView,
    TaskStatus,
};
use crate::store::WriteOutcome;
use crate::text::{blank, lemma_precedes_total, precedes};

verus! {

/// Whether a change left the identity of a task alone: what it is, under which key, what it
/// is to do, and when it came.
pub open spec fn same_task(before: TaskRecordView, after: TaskRecordView) -> bool {
    &&& after.id == before.id
    &&& after.idempotency_key == before.idempotency_key
    &&& after.payload == before.payload
    &&& after.created_at_unix_ms == before.created_at_unix_ms
}

/// A submitted task waits under its id and its key, with its payload, from now on. It was
/// never attempted, nobody holds it, and it has neither a result nor an error.
pub proof fn law_submitted_tasks_wait(id: Seq<char>, key: Seq<char>, payload: JsonView, now: u64)
    ensures
        ({
            let task = fresh_task(id, key, payload, now);
            &&& task.id == id
            &&& task.idempotency_key == key
            &&& task.payload == payload
            &&& task.status == TaskStatus::Pending
            &&& task.attempt == 0
            &&& task.lease is None
            &&& task.result is None
            &&& task.error is None
            &&& task.delivery == DeliveryState::NotReady
            &&& task.created_at_unix_ms == now
            &&& task.updated_at_unix_ms == now
        }),
{
}

/// A change is about one task: that one is changed, and every other is as it was. A change of
/// a task that is not known is refused with its id.
pub proof fn law_changes_are_about_one_task(
    tasks: Map<Seq<char>, TaskRecordView>,
    event: LedgerEventView,
    at: u64,
    other: Seq<char>,
)
    requires
        other != event_task(event),
    ensures
        ledger_applied(tasks, event, at) is Ok <==> event is Submitted || tasks.contains_key(
            event_task(event),
        ),
        ledger_applied(tasks, event, at) matches Ok(after) ==> after.contains_key(event_task(event))
            && after.contains_key(other) == tasks.contains_key(other) && (tasks.contains_key(other)
            ==> after[other] == tasks[other]),
        ledger_applied(tasks, event, at) matches Err(error) ==> error
            == LedgerErrorView::UnknownTask(event_task(event)),
        event matches LedgerEventView::Submitted { task } ==> ledger_applied(tasks, event, at)
            == Ok::<Map<Seq<char>, TaskRecordView>, LedgerErrorView>(tasks.insert(task.id, task)),
{
}

/// A claimed task runs, one attempt up, under the lease of its claim.
pub proof fn law_claimed_tasks_run(
    tasks: Map<Seq<char>, TaskRecordView>,
    id: Seq<char>,
    lease: TaskLeaseView,
    at: u64,
)
    requires
        tasks.contains_key(id),
        tasks[id].attempt < u32::MAX,
    ensures
        ({
            let event = LedgerEventView::Claimed { task_id: id, lease };
            let task = ledger_applied(tasks, event, at)->Ok_0[id];
            &&& same_task(tasks[id], task)
            &&& task.status == TaskStatus::Running
            &&& task.attempt == tasks[id].attempt + 1
            &&& task.lease == Some(lease)
            &&& task.result == tasks[id].result
            &&& task.error == tasks[id].error
            &&& task.delivery == tasks[id].delivery
            &&& task.updated_at_unix_ms == at
        }),
{
}

/// A heartbeat moves the end of the lease, and nothing else: the worker and the attempt stay.
pub proof fn law_heartbeats_move_the_end_of_the_lease(
    tasks: Map<Seq<char>, TaskRecordView>,
    id: Seq<char>,
    worker_id: Seq<char>,
    expires_at_unix_ms: u64,
    now: u64,
    at: u64,
)
    requires
        planned_heartbeat(tasks, id, worker_id, expires_at_unix_ms, now) is Ok,
    ensures
        ({
            let event = planned_heartbeat(tasks, id, worker_id, expires_at_unix_ms, now)->Ok_0;
            let task = ledger_applied(tasks, event, at)->Ok_0[id];
            &&& event_task(event) == id
            &&& same_task(tasks[id], task)
            &&& task.status == TaskStatus::Running
            &&& task.attempt == tasks[id].attempt
            &&& task.lease == Some(TaskLeaseView { worker_id, expires_at_unix_ms })
            &&& task.delivery == tasks[id].delivery
            &&& task.updated_at_unix_ms == at
        }),
{
}

/// A task that ends loses its lease, keeps its attempts, and its end waits for delivery. A
/// success keeps the result, a failure the error, and a cancellation or a lost worker the
/// reason, word for word.
pub proof fn law_ended_tasks_keep_what_was_told(
    tasks: Map<Seq<char>, TaskRecordView>,
    id: Seq<char>,
    result: JsonView,
    told: Seq<char>,
    at: u64,
)
    requires
        tasks.contains_key(id),
    ensures
        ({
            let succeeded = ledger_applied(
                tasks,
                LedgerEventView::Succeeded { task_id: id, result },
                at,
            )->Ok_0[id];
            let failed = ledger_applied(
                tasks,
                LedgerEventView::Failed { task_id: id, error: told },
                at,
            )->Ok_0[id];
            let cancelled = ledger_applied(
                tasks,
                LedgerEventView::Cancelled { task_id: id, reason: told },
                at,
            )->Ok_0[id];
            let lost = ledger_applied(
                tasks,
                LedgerEventView::MarkedUnknown { task_id: id, reason: told },
                at,
            )->Ok_0[id];
            &&& succeeded.status == TaskStatus::Succeeded && succeeded.result == Some(result)
                && succeeded.error is None
            &&& failed.status == TaskStatus::Failed && failed.error == Some(told) && failed.result
                == tasks[id].result
            &&& cancelled.status == TaskStatus::Cancelled && cancelled.error == Some(told)
                && cancelled.result == tasks[id].result
            &&& lost.status == TaskStatus::Unknown && lost.error == Some(told) && lost.result
                == tasks[id].result
            &&& same_task(tasks[id], succeeded) && same_task(tasks[id], failed) && same_task(
                tasks[id],
                cancelled,
            ) && same_task(tasks[id], lost)
            &&& succeeded.lease is None && failed.lease is None && cancelled.lease is None
                && lost.lease is None
            &&& succeeded.attempt == tasks[id].attempt && failed.attempt == tasks[id].attempt
                && cancelled.attempt == tasks[id].attempt && lost.attempt == tasks[id].attempt
            &&& succeeded.delivery == DeliveryState::Pending && failed.delivery
                == DeliveryState::Pending && cancelled.delivery == DeliveryState::Pending
                && lost.delivery == DeliveryState::Pending
            &&& succeeded.updated_at_unix_ms == at && failed.updated_at_unix_ms == at
                && cancelled.updated_at_unix_ms == at && lost.updated_at_unix_ms == at
        }),
{
}

/// An acknowledgement only tells that the end was delivered.
pub proof fn law_acknowledgements_only_tell_delivery(
    tasks: Map<Seq<char>, TaskRecordView>,
    id: Seq<char>,
    at: u64,
)
    requires
        tasks.contains_key(id),
    ensures
        ledger_applied(tasks, LedgerEventView::DeliveryAcknowledged { task_id: id }, at)->Ok_0[id]
            == (TaskRecordView {
            delivery: DeliveryState::Acknowledged,
            updated_at_unix_ms: at,
            ..tasks[id]
        }),
{
}

/// A lease is the worker's own, and lasts as long as was asked for from now on, for at least a
/// millisecond and no longer than time can be told.
pub proof fn law_leases_last_as_asked(worker_id: Seq<char>, now: u64, duration: u64)
    ensures
        lease_of(worker_id, now, duration).worker_id == worker_id,
        duration > 0 && now + duration <= u64::MAX ==> lease_of(
            worker_id,
            now,
            duration,
        ).expires_at_unix_ms == now + duration,
        duration > 0 && now + duration > u64::MAX ==> lease_of(
            worker_id,
            now,
            duration,
        ).expires_at_unix_ms == u64::MAX,
        duration == 0 && now < u64::MAX ==> lease_of(worker_id, now, duration).expires_at_unix_ms
            == now + 1,
{
}

/// The next task to be claimed waits, and no waiting task is older, or as old with a smaller
/// id. There is at most one such task.
pub proof fn law_the_oldest_task_is_next(
    tasks: Map<Seq<char>, TaskRecordView>,
    id: Seq<char>,
    other: Seq<char>,
)
    requires
        next_in_line(tasks, id),
        tasks.contains_key(other),
        tasks[other].status == TaskStatus::Pending,
    ensures
        tasks.contains_key(id),
        tasks[id].status == TaskStatus::Pending,
        tasks[id].created_at_unix_ms <= tasks[other].created_at_unix_ms,
        tasks[id].created_at_unix_ms == tasks[other].created_at_unix_ms ==> !precedes(other, id),
        next_in_line(tasks, other) ==> other == id,
{
    assert(waits(tasks, other));
    assert(waits(tasks, id));
    assert(!claimed_before(tasks, other, id));
    if next_in_line(tasks, other) {
        assert(!claimed_before(tasks, id, other));
        lemma_precedes_total(id, other);
    }
}

/// A heartbeat and an end are taken from the worker alone that holds the task, while its lease
/// lasts; an end also only in the attempt that was claimed. Anyone may cancel a task that has
/// not ended, and an end that waits for delivery can be acknowledged. A refusal names the
/// task and its status.
pub proof fn law_operations_are_taken_from_the_right_hands(
    tasks: Map<Seq<char>, TaskRecordView>,
    id: Seq<char>,
    worker_id: Seq<char>,
    attempt: u32,
    expires_at_unix_ms: u64,
    now: u64,
    event: LedgerEventView,
    reason: Seq<char>,
)
    requires
        tasks.contains_key(id),
    ensures
        ({
            let task = tasks[id];
            let held = task.status == TaskStatus::Running && (task.lease matches Some(lease)
                && lease.worker_id == worker_id && now < lease.expires_at_unix_ms);
            let over = task.status == TaskStatus::Succeeded || task.status == TaskStatus::Failed
                || task.status == TaskStatus::Cancelled || task.status == TaskStatus::Unknown;
            let beat = planned_heartbeat(tasks, id, worker_id, expires_at_unix_ms, now);
            let finish = planned_finish(tasks, id, worker_id, attempt, now, event);
            let cancel = planned_cancel(tasks, id, reason);
            let acknowledged = planned_acknowledgement(tasks, id);
            &&& beat is Ok <==> held
            &&& beat matches Ok(planned) ==> planned == (LedgerEventView::Heartbeat {
                task_id: id,
                expires_at_unix_ms,
            })
            &&& finish is Ok <==> held && attempt == task.attempt
            &&& finish matches Ok(planned) ==> planned == event
            &&& cancel is Ok <==> !over
            &&& cancel matches Ok(planned) ==> planned == (LedgerEventView::Cancelled {
                task_id: id,
                reason,
            })
            &&& acknowledged is Ok <==> task.delivery == DeliveryState::Pending
            &&& acknowledged matches Ok(planned) ==> planned == (
            LedgerEventView::DeliveryAcknowledged { task_id: id })
            &&& finish matches Err(error) ==> (error matches LedgerErrorView::InvalidTransition {
                task_id,
                status,
                ..
            } && task_id == task.id && status == task.status)
        }),
{
}

/// No operation is taken for a task that is not known.
pub proof fn law_unknown_tasks_are_refused(
    tasks: Map<Seq<char>, TaskRecordView>,
    id: Seq<char>,
    worker_id: Seq<char>,
    attempt: u32,
    expires_at_unix_ms: u64,
    now: u64,
    event: LedgerEventView,
    reason: Seq<char>,
)
    requires
        !tasks.contains_key(id),
    ensures
        ({
            let refused = Err::<LedgerEventView, LedgerErrorView>(LedgerErrorView::UnknownTask(id));
            &&& planned_heartbeat(tasks, id, worker_id, expires_at_unix_ms, now) == refused
            &&& planned_finish(tasks, id, worker_id, attempt, now, event) == refused
            &&& planned_cancel(tasks, id, reason) == refused
            &&& planned_acknowledgement(tasks, id) == refused
        }),
{
}

/// A running task whose lease ends now or has ended is given up; while the lease lasts it is
/// not. What is given up is marked as unknown.
pub proof fn law_leases_run_out_on_time(task: TaskRecordView, lease: TaskLeaseView, now: u64)
    requires
        task.status == TaskStatus::Running,
        task.lease == Some(lease),
    ensures
        lease_expired(task, now) <==> lease.expires_at_unix_ms <= now,
        holds(task, lease.worker_id, now) <==> now < lease.expires_at_unix_ms,
        giving_up(task.id) matches LedgerEventView::MarkedUnknown { task_id, .. } && task_id
            == task.id,
{
}

/// A change is taken exactly where its record became durable: then the ledger is one number
/// further. Else it is as it was, and the answer is an error.
pub proof fn law_only_durable_changes_are_taken(
    ledger: LedgerView,
    event: LedgerEventView,
    at: u64,
    outcome: WriteOutcome,
)
    requires
        event is Submitted || ledger.tasks.contains_key(event_task(event)),
    ensures
        ({
            let (after, answer) = ledger_appended(ledger, event, at, outcome);
            &&& answer is Ok <==> outcome is Durable
            &&& answer is Err ==> after == ledger
            &&& answer is Ok ==> after.next == ledger.next + 1 && Ok::<
                Map<Seq<char>, TaskRecordView>,
                LedgerErrorView,
            >(after.tasks) == ledger_applied(ledger.tasks, event, at)
        }),
{
}

/// A submission is found again under its key, and no other key leads to it.
pub proof fn law_keys_lead_to_their_task(
    ledger: LedgerView,
    task: TaskRecordView,
    at: u64,
    other: Seq<char>,
)
    requires
        other != task.idempotency_key,
        !ledger.tasks.contains_key(task.id),
    ensures
        ({
            let event = LedgerEventView::Submitted { task };
            let after = ledger_appended(ledger, event, at, WriteOutcome::Durable).0;
            &&& submitted_before(after, task.idempotency_key) == Some(task)
            &&& submitted_before(ledger, other) is Some ==> submitted_before(after, other)
                == submitted_before(ledger, other)
        }),
{
}

/// A blank line of a ledger file holds nothing, and any other holds what it decodes to.
pub proof fn law_ledger_lines_hold_what_they_decode_to(
    text: Seq<char>,
    decoded: Result<LedgerEnvelopeView, Seq<char>>,
)
    ensures
        ledger_line_of(text, decoded) is Blank <==> blank(text),
        !blank(text) ==> match decoded {
            Ok(record) => ledger_line_of(text, decoded) == LedgerLineView::Record(record),
            Err(message) => ledger_line_of(text, decoded) == (LedgerLineView::Broken { message }),
        },
{
}

/// A line that cannot be decoded makes the file corrupt, and the answer names it, counted from
/// one, and its fault. Blank lines in front of it change nothing.
pub proof fn law_broken_ledger_lines_are_named(
    lines: Seq<LedgerLineView>,
    at: int,
    place: int,
    tasks: Map<Seq<char>, TaskRecordView>,
    next: nat,
)
    requires
        0 <= at <= place < lines.len(),
        place < usize::MAX,
        forall|i: int| at <= i < place ==> (#[trigger] lines[i]) is Blank,
        lines[place] is Broken,
    ensures
        ledger_replayed(lines, at, tasks, next) matches Err(LedgerErrorView::Corrupt {
            line,
            message,
        }) && line == place + 1 && lines[place] == (LedgerLineView::Broken { message }),
    decreases place - at,
{
    if at < place {
        assert(lines[at] is Blank);
        law_broken_ledger_lines_are_named(lines, at + 1, place, tasks, next);
    }
}

/// An operation that is taken writes one record, with the next number, the time and its change,
/// and answers with the task as it is then. One that is refused, or whose record does not become
/// durable, leaves the ledger as it was.
pub proof fn law_operations_write_what_they_answer<W: Fn(LedgerEnvelope) -> WriteOutcome>(
    write: W,
    before: LedgerView,
    planned: Result<LedgerEventView, LedgerErrorView>,
    at: u64,
    after: LedgerView,
    answer: Result<TaskRecordView, LedgerErrorView>,
)
    requires
        performs(write, before, planned, at, after, answer),
        before.next <= u64::MAX,
    ensures
        planned matches Err(error) ==> after == before && answer == Err::<
            TaskRecordView,
            LedgerErrorView,
        >(error),
        answer is Err ==> after == before,
        answer matches Ok(task) ==> {
            &&& planned matches Ok(event)
            &&& ledger_applied(before.tasks, event, at) == Ok::<
                Map<Seq<char>, TaskRecordView>,
                LedgerErrorView,
            >(after.tasks)
            &&& task == after.tasks[event_task(event)]
            &&& after.next == before.next + 1
            &&& exists|record: LedgerEnvelope, outcome: WriteOutcome|
                record@.sequence == before.next && record@.at_unix_ms == at && record@.event
                    == event && outcome is Durable && #[trigger] call_ensures(
                    write,
                    (record,),
                    outcome,
                )
        },
{
    match planned {
        Ok(event) => {
            let done = match answer {
                Ok(_) => Ok::<(), LedgerErrorView>(()),
                Err(error) => Err::<(), LedgerErrorView>(error),
            };
            let told = LedgerEnvelopeView { sequence: before.next as u64, at_unix_ms: at, event };
            let outcome = choose|outcome: WriteOutcome| #[trigger]
                wrote(write, told, outcome) && (after, done) == ledger_appended(
                    before,
                    event,
                    at,
                    outcome,
                );
            let record = choose|record: LedgerEnvelope|
                record@ == told && #[trigger] call_ensures(write, (record,), outcome);
            assert(call_ensures(write, (record,), outcome));
        },
        Err(_) => {},
    }
}

/// Different statuses have different names.
pub proof fn law_statuses_have_their_names(one: TaskStatus, other: TaskStatus)
    requires
        one != other,
    ensures
        status_name(one) != status_name(other),
{
    reveal_strlit("Pending");
    reveal_strlit("Running");
    reveal_strlit("Succeeded");
    reveal_strlit("Failed");
    reveal_strlit("Cancelled");
    reveal_strlit("Unknown");
    assert("Pending"@.len() == 7 && "Running"@.len() == 7 && "Succeeded"@.len() == 9
        && "Failed"@.len() == 6 && "Cancelled"@.len() == 9 && "Unknown"@.len() == 7);
    assert("Pending"@[0] != "Running"@[0]);
    assert("Pending"@[0] != "Unknown"@[0]);
    assert("Running"@[0] != "Unknown"@[0]);
    assert("Succeeded"@[0] != "Cancelled"@[0]);
}

} // verus!
