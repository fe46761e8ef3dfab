//! What holds of a ledger through any history of its operations, and when it is reopened.

use vstd::prelude::*;

use crate::json::JsonView;
use crate::keyed::ascending;
use crate::ledger::{
    event_fits, event_task, fresh_task, gave_up, giving_up, indexes, law_index_is_kept,
    law_replay_follows_the_ledger, lease_expired, ledger_appended, ledger_applied, ledger_replayed,
    lists_expired, planned_acknowledgement, planned_cancel, planned_finish, planned_heartbeat,
    records_of, replay_fits, submitted_before, terminal_status, waits, DeliveryState,
    LedgerEnvelopeView, LedgerErrorView, LedgerEventView, LedgerLineView, LedgerView, TaskLeaseView,
    TaskRecordView, TaskStatus,
};
use crate::store::WriteOutcome;
use crate::text::{lemma_precedes_irreflexive, precedes};

verus! {

/// Whether the operations of a ledger make this change. A submission brings a fresh task
/// under a key that was not used before, with an identifier that no task has.
pub open spec fn permitted(ledger: LedgerView, event: LedgerEventView) -> bool {
    let id = event_task(event);
    match event {
        LedgerEventView::Submitted { task } => {
            &&& submitted_before(ledger, task.idempotency_key) is None
            &&& !ledger.tasks.contains_key(id)
            &&& task == fresh_task(
                task.id,
                task.idempotency_key,
                task.payload,
                task.created_at_unix_ms,
            )
        },
        LedgerEventView::Claimed { .. } => waits(ledger.tasks, id),
        LedgerEventView::Heartbeat { .. }
        | LedgerEventView::Succeeded { .. }
        | LedgerEventView::Failed { .. }
        | LedgerEventView::MarkedUnknown { .. } => ledger.tasks.contains_key(id)
            && ledger.tasks[id].status == TaskStatus::Running && ledger.tasks[id].lease is Some,
        LedgerEventView::Cancelled { .. } => ledger.tasks.contains_key(id) && !terminal_status(
            ledger.tasks[id].status,
        ),
        LedgerEventView::DeliveryAcknowledged { .. } => ledger.tasks.contains_key(id)
            && ledger.tasks[id].delivery == DeliveryState::Pending,
    }
}

/// The ledger after a history of durable records.
pub open spec fn ledger_of(history: Seq<LedgerEnvelopeView>) -> LedgerView
    decreases history.len(),
{
    if history.len() == 0 {
        LedgerView { tasks: Map::empty(), index: Map::empty(), next: 0 }
    } else {
        let record = history.last();
        ledger_appended(
            ledger_of(history.drop_last()),
            record.event,
            record.at_unix_ms,
            WriteOutcome::Durable,
        ).0
    }
}

/// Whether the operations of a ledger wrote this history, from an empty file on.
pub open spec fn written(history: Seq<LedgerEnvelopeView>) -> bool
    decreases history.len(),
{
    history.len() == 0 || {
        &&& written(history.drop_last())
        &&& history.last().sequence == history.len() - 1
        &&& permitted(ledger_of(history.drop_last()), history.last().event)
    }
}

/// The lines of a file that holds a history.
pub open spec fn lines_of(history: Seq<LedgerEnvelopeView>) -> Seq<LedgerLineView> {
    history.map_values(|record: LedgerEnvelopeView| LedgerLineView::Record(record))
}

/// Whether the parts of a record agree with its status.
pub open spec fn sound_task(task: TaskRecordView) -> bool {
    &&& task.lease is Some <==> task.status == TaskStatus::Running
    &&& task.delivery == DeliveryState::NotReady <==> !terminal_status(task.status)
    &&& task.result is Some <==> task.status == TaskStatus::Succeeded
    &&& task.error is Some <==> (task.status == TaskStatus::Failed || task.status
        == TaskStatus::Cancelled || task.status == TaskStatus::Unknown)
    &&& task.status == TaskStatus::Pending ==> task.attempt == 0
}

/// Whether the records of a ledger are sound, each under its identifier, and no two have
/// the same idempotency key.
pub open spec fn sound(ledger: LedgerView) -> bool {
    &&& forall|id: Seq<char>| #[trigger]
        ledger.tasks.contains_key(id) ==> ledger.tasks[id].id == id && sound_task(ledger.tasks[id])
    &&& forall|a: Seq<char>, b: Seq<char>| #[trigger]
        ledger.tasks.contains_key(a) && #[trigger] ledger.tasks.contains_key(b) && a != b
            ==> ledger.tasks[a].idempotency_key != ledger.tasks[b].idempotency_key
    &&& indexes(ledger.index, ledger.tasks)
}

/// Every operation of a ledger plans a permitted change, or is refused. A submission is
/// permitted where its key and its identifier are new.
pub proof fn law_operations_make_permitted_changes(
    ledger: LedgerView,
    id: Seq<char>,
    worker_id: Seq<char>,
    attempt: u32,
    now: u64,
    event: LedgerEventView,
    key: Seq<char>,
    payload: JsonView,
    lease: TaskLeaseView,
    expires_at_unix_ms: u64,
    reason: Seq<char>,
)
    ensures
        submitted_before(ledger, key) is None && !ledger.tasks.contains_key(id) ==> permitted(
            ledger,
            LedgerEventView::Submitted { task: fresh_task(id, key, payload, now) },
        ),
        waits(ledger.tasks, id) ==> permitted(ledger, LedgerEventView::Claimed { task_id: id, lease }),
        planned_heartbeat(ledger.tasks, id, worker_id, expires_at_unix_ms, now) matches Ok(planned)
            ==> permitted(ledger, planned),
        event_task(event) == id && (event is Succeeded || event is Failed) ==> (planned_finish(
            ledger.tasks,
            id,
            worker_id,
            attempt,
            now,
            event,
        ) matches Ok(planned) ==> permitted(ledger, planned)),
        planned_cancel(ledger.tasks, id, reason) matches Ok(planned) ==> permitted(ledger, planned),
        ledger.tasks.contains_key(id) && lease_expired(ledger.tasks[id], now) ==> permitted(
            ledger,
            giving_up(id),
        ),
        planned_acknowledgement(ledger.tasks, id) matches Ok(planned) ==> permitted(
            ledger,
            planned,
        ),
{
}

/// A permitted change whose record becomes durable continues the history: the ledger takes
/// the change, without an error.
pub proof fn law_permitted_changes_continue_the_history(
    history: Seq<LedgerEnvelopeView>,
    event: LedgerEventView,
    at: u64,
)
    requires
        written(history),
        history.len() < u64::MAX,
        permitted(ledger_of(history), event),
    ensures
        ({
            let record = LedgerEnvelopeView {
                sequence: ledger_of(history).next as u64,
                at_unix_ms: at,
                event,
            };
            &&& written(history.push(record))
            &&& ledger_appended(ledger_of(history), event, at, WriteOutcome::Durable) == (
                ledger_of(history.push(record)),
                Ok::<(), LedgerErrorView>(()),
            )
        }),
{
    lemma_history_is_numbered(history);
    let record = LedgerEnvelopeView {
        sequence: ledger_of(history).next as u64,
        at_unix_ms: at,
        event,
    };
    assert(history.push(record).drop_last() =~= history);
}

proof fn lemma_history_is_numbered(history: Seq<LedgerEnvelopeView>)
    requires
        written(history),
    ensures
        ledger_of(history).next == history.len(),
    decreases history.len(),
{
    if history.len() > 0 {
        lemma_history_is_numbered(history.drop_last());
    }
}

/// The records of a ledger are sound after any history: a task has a lease if and only if
/// it runs, its end is ready for delivery if and only if it came to one, it has a result if
/// and only if it succeeded and an error if and only if it failed, was cancelled or is
/// unknown, and a waiting task was never attempted. No two tasks share a key.
pub proof fn law_records_are_sound(history: Seq<LedgerEnvelopeView>)
    requires
        written(history),
    ensures
        sound(ledger_of(history)),
    decreases history.len(),
{
    if history.len() > 0 {
        let earlier = ledger_of(history.drop_last());
        let event = history.last().event;
        let at = history.last().at_unix_ms;
        law_records_are_sound(history.drop_last());
        if event is Submitted {
            let key = event->Submitted_task.idempotency_key;
            if earlier.index.contains_key(key) {
                assert(earlier.tasks.contains_key(earlier.index[key]));
            }
        }
        law_index_is_kept(earlier, event, at);
        let after = ledger_of(history);
        let about = event_task(event);
        assert forall|id: Seq<char>| #[trigger]
            after.tasks.contains_key(id) implies after.tasks[id].id == id && sound_task(
            after.tasks[id],
        ) by {
            if id != about || !(event is Submitted) {
                assert(earlier.tasks.contains_key(id));
            }
        }
        assert forall|a: Seq<char>, b: Seq<char>| #[trigger]
            after.tasks.contains_key(a) && #[trigger] after.tasks.contains_key(b) && a != b implies
            after.tasks[a].idempotency_key != after.tasks[b].idempotency_key by {
            if earlier.tasks.contains_key(a) && earlier.tasks.contains_key(b) {
            } else if earlier.tasks.contains_key(a) {
                assert(earlier.index.contains_key(earlier.tasks[a].idempotency_key));
            } else {
                assert(earlier.tasks.contains_key(b));
                assert(earlier.index.contains_key(earlier.tasks[b].idempotency_key));
            }
        }
    } else {
        assert(sound(ledger_of(history)));
    }
}

/// The tasks that a ledger lists are sound and stand in strictly ascending order of their
/// identifiers, with distinct keys.
pub proof fn law_listed_tasks_are_sound(
    history: Seq<LedgerEnvelopeView>,
    ids: Seq<Seq<char>>,
    listed: Seq<TaskRecordView>,
)
    requires
        written(history),
        ascending(ids),
        ids.to_set() == ledger_of(history).tasks.dom(),
        listed == records_of(ids, ledger_of(history).tasks),
    ensures
        forall|i: int| 0 <= i < listed.len() ==> sound_task(#[trigger] listed[i]),
        forall|i: int, j: int|
            0 <= i < j < listed.len() ==> precedes((#[trigger] listed[i]).id, (#[trigger] listed[j]).id)
                && listed[i].idempotency_key != listed[j].idempotency_key,
{
    let tasks = ledger_of(history).tasks;
    law_records_are_sound(history);
    assert forall|i: int| 0 <= i < ids.len() implies tasks.contains_key(#[trigger] ids[i]) by {
        assert(ids.to_set().contains(ids[i]));
    }
    assert forall|i: int, j: int| 0 <= i < j < listed.len() implies precedes(
        (#[trigger] listed[i]).id,
        (#[trigger] listed[j]).id,
    ) && listed[i].idempotency_key != listed[j].idempotency_key by {
        assert(tasks.contains_key(ids[i]) && tasks.contains_key(ids[j]));
        assert(precedes(ids[i], ids[j]));
        lemma_precedes_irreflexive(ids[i]);
    }
}

/// The file of a history can be opened, and replays without an error to the tasks and the
/// next number that the history led to.
pub proof fn law_history_replays(history: Seq<LedgerEnvelopeView>)
    requires
        written(history),
        history.len() <= u64::MAX,
    ensures
        replay_fits(lines_of(history), 0, Map::empty()),
        ledger_replayed(lines_of(history), 0, Map::empty(), 0) == Ok::<
            (Map<Seq<char>, TaskRecordView>, nat),
            LedgerErrorView,
        >((ledger_of(history).tasks, ledger_of(history).next)),
    decreases history.len(),
{
    if history.len() > 0 {
        let front = history.drop_last();
        let record = history.last();
        law_history_replays(front);
        lemma_history_is_numbered(front);
        law_records_are_sound(front);
        assert(lines_of(history) =~= lines_of(front).push(LedgerLineView::Record(record)));
        law_replay_follows_the_ledger(lines_of(front), record, 0, Map::empty(), 0);
        lemma_replay_fits_push(lines_of(front), record, 0, Map::empty(), 0);
    }
}

proof fn lemma_replay_fits_push(
    lines: Seq<LedgerLineView>,
    record: LedgerEnvelopeView,
    at: int,
    tasks: Map<Seq<char>, TaskRecordView>,
    next: nat,
)
    requires
        0 <= at <= lines.len(),
        replay_fits(lines, at, tasks),
        ledger_replayed(lines, at, tasks, next) is Ok,
        record.sequence < u64::MAX,
        event_fits(ledger_replayed(lines, at, tasks, next)->Ok_0.0, record.event),
    ensures
        replay_fits(lines.push(LedgerLineView::Record(record)), at, tasks),
    decreases lines.len() - at,
{
    let longer = lines.push(LedgerLineView::Record(record));
    if at == lines.len() {
        assert(longer[at] == LedgerLineView::Record(record));
        match ledger_applied(tasks, record.event, record.at_unix_ms) {
            Ok(after) => {
                assert(replay_fits(longer, at + 1, after));
            },
            Err(_) => {},
        }
    } else {
        assert(longer[at] == lines[at]);
        match lines[at] {
            LedgerLineView::Blank => {
                lemma_replay_fits_push(lines, record, at + 1, tasks, next);
            },
            LedgerLineView::Broken { .. } => {},
            LedgerLineView::Record(earlier) => {
                match ledger_applied(tasks, earlier.event, earlier.at_unix_ms) {
                    Err(_) => {},
                    Ok(after) => {
                        lemma_replay_fits_push(
                            lines,
                            record,
                            at + 1,
                            after,
                            if earlier.sequence + 1 > next {
                                (earlier.sequence + 1) as nat
                            } else {
                                next
                            },
                        );
                    },
                }
            },
        }
    }
}

/// A ledger that is closed and reopened is as it was.
pub proof fn law_reopened_ledger_is_as_it_was(
    history: Seq<LedgerEnvelopeView>,
    reopened: LedgerView,
)
    requires
        written(history),
        history.len() <= u64::MAX,
        ledger_replayed(lines_of(history), 0, Map::empty(), 0) == Ok::<
            (Map<Seq<char>, TaskRecordView>, nat),
            LedgerErrorView,
        >((reopened.tasks, reopened.next)),
        indexes(reopened.index, reopened.tasks),
    ensures
        reopened == ledger_of(history),
{
    law_history_replays(history);
    law_records_are_sound(history);
    lemma_index_is_unique(ledger_of(history), reopened.index);
}

proof fn lemma_index_is_unique(ledger: LedgerView, index: Map<Seq<char>, Seq<char>>)
    requires
        sound(ledger),
        indexes(index, ledger.tasks),
    ensures
        index == ledger.index,
{
    let tasks = ledger.tasks;
    assert forall|key: Seq<char>| index.contains_key(key) <==> #[trigger] ledger.index.contains_key(
        key,
    ) by {
        if index.contains_key(key) {
            assert(tasks.contains_key(index[key]));
        }
        if ledger.index.contains_key(key) {
            assert(tasks.contains_key(ledger.index[key]));
        }
    }
    assert forall|key: Seq<char>| #[trigger] index.contains_key(key) implies index[key]
        == ledger.index[key] by {
        assert(ledger.index.contains_key(key));
        assert(tasks.contains_key(index[key]) && tasks.contains_key(ledger.index[key]));
    }
    assert(index =~= ledger.index);
}

/// A submission is idempotent through any history: once a key led to a task, it leads to
/// the same task with the same payload after every later change, in its current state, and
/// so it does when the ledger is reopened. Submitting under the key again is then answered
/// with that record, and nothing is recorded.
pub proof fn law_submission_is_idempotent(
    history: Seq<LedgerEnvelopeView>,
    earlier: int,
    key: Seq<char>,
    reopened: LedgerView,
)
    requires
        written(history),
        history.len() <= u64::MAX,
        0 <= earlier <= history.len(),
        submitted_before(ledger_of(history.take(earlier)), key) is Some,
        ledger_replayed(lines_of(history), 0, Map::empty(), 0) == Ok::<
            (Map<Seq<char>, TaskRecordView>, nat),
            LedgerErrorView,
        >((reopened.tasks, reopened.next)),
        indexes(reopened.index, reopened.tasks),
    ensures
        ({
            let first = submitted_before(ledger_of(history.take(earlier)), key)->Some_0;
            let now = ledger_of(history);
            &&& now.tasks.contains_key(first.id)
            &&& submitted_before(now, key) == Some(now.tasks[first.id])
            &&& submitted_before(reopened, key) == Some(now.tasks[first.id])
            &&& now.tasks[first.id].id == first.id
            &&& now.tasks[first.id].idempotency_key == key
            &&& now.tasks[first.id].payload == first.payload
        }),
{
    law_reopened_ledger_is_as_it_was(history, reopened);
    lemma_key_is_kept(history, earlier, key);
}

proof fn lemma_key_is_kept(history: Seq<LedgerEnvelopeView>, earlier: int, key: Seq<char>)
    requires
        written(history),
        0 <= earlier <= history.len(),
        submitted_before(ledger_of(history.take(earlier)), key) is Some,
    ensures
        ({
            let first = submitted_before(ledger_of(history.take(earlier)), key)->Some_0;
            let now = ledger_of(history);
            &&& now.tasks.contains_key(first.id)
            &&& submitted_before(now, key) == Some(now.tasks[first.id])
            &&& now.tasks[first.id].id == first.id
            &&& now.tasks[first.id].idempotency_key == key
            &&& now.tasks[first.id].payload == first.payload
        }),
    decreases history.len(),
{
    law_records_are_sound(history);
    if earlier == history.len() {
        assert(history.take(earlier) =~= history);
        let ledger = ledger_of(history);
        assert(ledger.tasks.contains_key(ledger.index[key]));
    } else {
        let front = history.drop_last();
        assert(front.take(earlier) =~= history.take(earlier));
        lemma_key_is_kept(front, earlier, key);
        law_records_are_sound(front);
    }
}

/// Giving up expired tasks continues the history, up to any of them: what a recovery
/// leaves behind, also where a failed write ended it, is a ledger of a longer history.
pub proof fn law_giving_up_continues_the_history(
    history: Seq<LedgerEnvelopeView>,
    ids: Seq<Seq<char>>,
    now: u64,
    at: u64,
    count: int,
) -> (later: Seq<LedgerEnvelopeView>)
    requires
        written(history),
        lists_expired(ids, ledger_of(history).tasks, now),
        0 <= count <= ids.len(),
        history.len() + ids.len() <= u64::MAX,
    ensures
        written(history + later),
        later.len() == count,
        ledger_of(history + later) == gave_up(ledger_of(history), ids.take(count), at),
    decreases count,
{
    if count == 0 {
        assert(history + Seq::<LedgerEnvelopeView>::empty() =~= history);
        Seq::empty()
    } else {
        let earlier = law_giving_up_continues_the_history(history, ids, now, at, count - 1);
        let start = ledger_of(history);
        let past = ids.take(count - 1);
        let id = ids[count - 1];
        let before = ledger_of(history + earlier);
        assert(ids.take(count).drop_last() =~= past);
        assert(ids.take(count).last() == id);
        assert(ids.contains(id));
        lemma_untouched(start, ids, now, at, count - 1);
        assert(before.tasks.contains_key(id) && before.tasks[id] == start.tasks[id]);
        assert(permitted(before, giving_up(id)));
        law_permitted_changes_continue_the_history(history + earlier, giving_up(id), at);
        let record = LedgerEnvelopeView {
            sequence: before.next as u64,
            at_unix_ms: at,
            event: giving_up(id),
        };
        let later = earlier.push(record);
        assert(history + later =~= (history + earlier).push(record));
        later
    }
}

proof fn lemma_untouched(
    ledger: LedgerView,
    ids: Seq<Seq<char>>,
    now: u64,
    at: u64,
    count: int,
)
    requires
        lists_expired(ids, ledger.tasks, now),
        0 <= count <= ids.len(),
    ensures
        forall|i: int|
            count <= i < ids.len() ==> gave_up(ledger, ids.take(count), at).tasks.contains_key(
                #[trigger] ids[i],
            ) && gave_up(ledger, ids.take(count), at).tasks[ids[i]] == ledger.tasks[ids[i]],
    decreases count,
{
    assert forall|i: int| 0 <= i < ids.len() implies ledger.tasks.contains_key(
        #[trigger] ids[i],
    ) by {
        assert(ids.contains(ids[i]));
    }
    if count > 0 {
        lemma_untouched(ledger, ids, now, at, count - 1);
        assert(ids.take(count).drop_last() =~= ids.take(count - 1));
        assert forall|i: int| count <= i < ids.len() implies #[trigger] ids[i] != ids[count - 1] by {
            lemma_precedes_irreflexive(ids[i]);
            assert(precedes(ids[count - 1], ids[i]));
        }
    }
}

} // verus!
