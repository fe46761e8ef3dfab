use std::cell::RefCell;

use nausicaa::json::{parse, Json};
use nausicaa::ledger::{
    DeliveryState, JsonlTaskLedger, LedgerEnvelope, LedgerError, LedgerLine, TaskId, TaskRecord,
    TaskStatus,
};
use nausicaa::store::WriteOutcome;

fn json(text: &str) -> Json {
    parse(text).unwrap()
}

fn id(text: &str) -> TaskId {
    TaskId::from_string(text.to_owned())
}

struct Disk(RefCell<Vec<LedgerEnvelope>>);

impl Disk {
    fn new() -> Self {
        Disk(RefCell::new(Vec::new()))
    }

    fn write(&self, envelope: LedgerEnvelope) -> WriteOutcome {
        self.0.borrow_mut().push(envelope);
        WriteOutcome::Durable
    }

    fn open(&self) -> JsonlTaskLedger {
        let lines = self.0.borrow().iter().map(|e| LedgerLine::Record(e.clone())).collect();
        JsonlTaskLedger::open("tasks.jsonl".to_owned(), &lines).unwrap()
    }
}

#[test]
fn submission_is_idempotent_and_completion_is_acknowledged() {
    let disk = Disk::new();
    let write = |e: LedgerEnvelope| disk.write(e);
    let mut ledger = disk.open();
    let first = ledger
        .submit("same".to_owned(), json("{ \"work\": 1 }"), id("a"), 1, &write)
        .unwrap();
    let second = ledger
        .submit("same".to_owned(), json("{ \"work\": 2 }"), id("b"), 2, &write)
        .unwrap();
    assert!(first.created);
    assert!(!second.created);
    assert_eq!(first.task.id, second.task.id);

    let running = ledger.claim_next("worker".to_owned(), 100, 50, 3, &write).unwrap().unwrap();
    let done = ledger
        .succeed(&running.id, "worker", running.attempt, json("{ \"ok\": true }"), 120, 4, &write)
        .unwrap();
    assert_eq!(done.delivery, DeliveryState::Pending);
    let acknowledged = ledger.acknowledge_delivery(&running.id, 5, &write).unwrap();
    assert_eq!(acknowledged.delivery, DeliveryState::Acknowledged);
    let task_id = acknowledged.id.clone();
    let updated_at = acknowledged.updated_at_unix_ms;
    let reopened = disk.open();
    let replayed = reopened.get(&task_id).unwrap();
    assert_eq!(replayed.delivery, DeliveryState::Acknowledged);
    assert_eq!(replayed.updated_at_unix_ms, updated_at);
    assert_eq!(reopened.path(), "tasks.jsonl");
}

#[test]
fn expired_lease_becomes_unknown_instead_of_pending() {
    let disk = Disk::new();
    let write = |e: LedgerEnvelope| disk.write(e);
    let mut ledger = disk.open();
    ledger.submit("once".to_owned(), json("{}"), id("a"), 1, &write).unwrap();
    ledger.claim_next("worker".to_owned(), 100, 10, 2, &write).unwrap().unwrap();

    let recovered = ledger.recover_expired(111, 3, &write).unwrap();

    assert_eq!(recovered.len(), 1);
    assert_eq!(recovered[0].status, TaskStatus::Unknown);
    assert!(ledger.claim_next("other".to_owned(), 112, 10, 4, &write).unwrap().is_none());
}

#[test]
fn leases_hold_until_they_expire_and_belong_to_their_worker() {
    let disk = Disk::new();
    let write = |e: LedgerEnvelope| disk.write(e);
    let mut ledger = disk.open();
    ledger.submit("once".to_owned(), json("{}"), id("a"), 1, &write).unwrap();
    let task = ledger.claim_next("worker".to_owned(), 100, 10, 2, &write).unwrap().unwrap();
    assert_eq!(task.attempt, 1);
    assert_eq!(task.lease.as_ref().unwrap().expires_at_unix_ms, 110);
    assert!(ledger.recover_expired(109, 3, &write).unwrap().is_empty());
    assert!(matches!(
        ledger.heartbeat(&task.id, "other", 200, 105, 4, &write),
        Err(LedgerError::InvalidTransition { .. })
    ));
    let kept = ledger.heartbeat(&task.id, "worker", 200, 105, 5, &write).unwrap();
    assert_eq!(kept.lease.unwrap().expires_at_unix_ms, 200);
    assert!(ledger.recover_expired(150, 6, &write).unwrap().is_empty());
}

#[test]
fn tasks_are_claimed_in_the_order_of_their_submission() {
    let disk = Disk::new();
    let write = |e: LedgerEnvelope| disk.write(e);
    let mut ledger = disk.open();
    ledger.submit("1".to_owned(), json("1"), id("z"), 1, &write).unwrap();
    ledger.submit("2".to_owned(), json("2"), id("a"), 2, &write).unwrap();
    assert_eq!(ledger.next_pending().unwrap(), id("z"));
    let first = ledger.claim_next("w".to_owned(), 1, 1, 3, &write).unwrap().unwrap();
    assert_eq!(first.id, id("z"));
    let failed = ledger.fail(&first.id, "w", 1, "no".to_owned(), 1, 4, &write).unwrap();
    assert_eq!(failed.status, TaskStatus::Failed);
    assert_eq!(failed.error.unwrap(), "no");
    let cancelled = ledger.cancel(&id("a"), "late".to_owned(), 5, &write).unwrap();
    assert_eq!(cancelled.status, TaskStatus::Cancelled);
    assert!(ledger.next_pending().is_none());
    let ids: Vec<String> = ledger.list().iter().map(|t| t.id.as_str().to_owned()).collect();
    assert_eq!(ids, vec!["a", "z"]);
}

#[test]
fn refused_changes_name_their_reason() {
    let disk = Disk::new();
    let write = |e: LedgerEnvelope| disk.write(e);
    let mut ledger = disk.open();
    assert_eq!(
        ledger.succeed(&id("a"), "w", 1, json("1"), 1, 1, &write).unwrap_err().to_text(),
        "task `a` does not exist"
    );
    ledger.submit("k".to_owned(), json("1"), id("a"), 1, &write).unwrap();
    assert!(matches!(
        ledger.succeed(&id("a"), "w", 0, json("1"), 2, 2, &write),
        Err(LedgerError::InvalidTransition { .. })
    ));
    assert!(matches!(
        ledger.acknowledge_delivery(&id("a"), 2, &write),
        Err(LedgerError::InvalidTransition { .. })
    ));
    assert_eq!(disk.0.borrow().len(), 1);
}

#[test]
fn ledgers_are_unchanged_when_a_record_is_not_written() {
    let mut ledger = JsonlTaskLedger::open("t".to_owned(), &Vec::new()).unwrap();
    let failing = |_: LedgerEnvelope| WriteOutcome::Failed("disk full".to_owned());
    assert_eq!(
        ledger.submit("k".to_owned(), json("1"), id("a"), 1, &failing).unwrap_err(),
        LedgerError::Io("disk full".to_owned())
    );
    assert!(ledger.get(&id("a")).is_none());
    assert!(ledger.list().is_empty());
}

#[test]
fn corrupt_ledgers_name_their_line() {
    let lines = vec![LedgerLine::Blank, LedgerLine::Broken { message: "bad".to_owned() }];
    assert_eq!(
        JsonlTaskLedger::open("t".to_owned(), &lines).unwrap_err().to_text(),
        "corrupt task ledger at line 2: bad"
    );
}

#[test]
fn terminal_tasks_stay_as_they_are() {
    for status in [
        TaskStatus::Succeeded,
        TaskStatus::Failed,
        TaskStatus::Cancelled,
        TaskStatus::Unknown,
    ] {
        assert!(status.is_terminal());
    }
    assert!(!TaskStatus::Pending.is_terminal());
    assert!(!TaskStatus::Running.is_terminal());
}

/// A ledger with one task that `worker` claimed at 100, for 10 milliseconds.
fn claimed(disk: &Disk) -> (JsonlTaskLedger, TaskRecord) {
    let write = |e: LedgerEnvelope| disk.write(e);
    let mut ledger = disk.open();
    ledger.submit("once".to_owned(), json("{}"), id("a"), 1, &write).unwrap();
    let task = ledger.claim_next("worker".to_owned(), 100, 10, 2, &write).unwrap().unwrap();
    (ledger, task)
}

fn refused(operation: &str, status: TaskStatus) -> LedgerError {
    LedgerError::InvalidTransition {
        task_id: id("a"),
        status,
        operation: operation.to_owned(),
    }
}

#[test]
fn only_the_worker_of_the_attempt_finishes_a_task() {
    let disk = Disk::new();
    let write = |e: LedgerEnvelope| disk.write(e);
    let (mut ledger, task) = claimed(&disk);
    let finish = || refused("finish", TaskStatus::Running);
    assert_eq!(ledger.succeed(&task.id, "other", 1, json("1"), 105, 3, &write), Err(finish()));
    assert_eq!(ledger.succeed(&task.id, "worker", 2, json("1"), 105, 3, &write), Err(finish()));
    assert_eq!(ledger.succeed(&task.id, "worker", 0, json("1"), 105, 3, &write), Err(finish()));
    assert_eq!(ledger.fail(&task.id, "other", 1, "e".to_owned(), 105, 3, &write), Err(finish()));
    assert_eq!(ledger.get(&task.id).unwrap(), task);
    assert_eq!(disk.0.borrow().len(), 2);
    let done = ledger.succeed(&task.id, "worker", 1, json("1"), 105, 3, &write).unwrap();
    assert_eq!(done.status, TaskStatus::Succeeded);
    assert_eq!(done.result, Some(json("1")));
}

#[test]
fn leases_end_with_the_moment_of_their_expiry() {
    let disk = Disk::new();
    let write = |e: LedgerEnvelope| disk.write(e);
    let (mut ledger, task) = claimed(&disk);
    for now in [110, 111, u64::MAX] {
        assert_eq!(
            ledger.heartbeat(&task.id, "worker", 500, now, 3, &write),
            Err(refused("heartbeat", TaskStatus::Running))
        );
        assert_eq!(
            ledger.succeed(&task.id, "worker", 1, json("1"), now, 3, &write),
            Err(refused("finish", TaskStatus::Running))
        );
        assert_eq!(
            ledger.fail(&task.id, "worker", 1, "e".to_owned(), now, 3, &write),
            Err(refused("finish", TaskStatus::Running))
        );
    }
    assert_eq!(ledger.get(&task.id).unwrap(), task);
    let failed = ledger.fail(&task.id, "worker", 1, "e".to_owned(), 109, 3, &write).unwrap();
    assert_eq!(failed.status, TaskStatus::Failed);
}

#[test]
fn extended_leases_allow_later_results_after_a_replay_too() {
    let disk = Disk::new();
    let write = |e: LedgerEnvelope| disk.write(e);
    let (mut ledger, task) = claimed(&disk);
    ledger.heartbeat(&task.id, "worker", 200, 109, 3, &write).unwrap();
    let mut reopened = disk.open();
    assert_eq!(reopened.get(&task.id), ledger.get(&task.id));
    assert_eq!(
        reopened.succeed(&task.id, "worker", 1, json("1"), 200, 4, &write),
        Err(refused("finish", TaskStatus::Running))
    );
    let done = reopened.succeed(&task.id, "worker", 1, json("1"), 199, 4, &write).unwrap();
    assert_eq!(done.status, TaskStatus::Succeeded);
}

#[test]
fn late_results_are_refused_after_cancellation_and_recovery() {
    let disk = Disk::new();
    let write = |e: LedgerEnvelope| disk.write(e);
    let (mut ledger, task) = claimed(&disk);
    ledger.cancel(&task.id, "stop".to_owned(), 3, &write).unwrap();
    assert_eq!(
        ledger.succeed(&task.id, "worker", 1, json("1"), 105, 4, &write),
        Err(refused("finish", TaskStatus::Cancelled))
    );

    let disk = Disk::new();
    let write = |e: LedgerEnvelope| disk.write(e);
    let (mut ledger, task) = claimed(&disk);
    ledger.recover_expired(110, 3, &write).unwrap();
    assert_eq!(
        ledger.succeed(&task.id, "worker", 1, json("1"), 105, 4, &write),
        Err(refused("finish", TaskStatus::Unknown))
    );
    assert_eq!(
        ledger.heartbeat(&task.id, "worker", 500, 105, 4, &write),
        Err(refused("heartbeat", TaskStatus::Unknown))
    );
}

#[test]
fn keys_lead_to_their_task_through_any_history() {
    let disk = Disk::new();
    let write = |e: LedgerEnvelope| disk.write(e);
    let (mut ledger, task) = claimed(&disk);
    ledger.submit("other".to_owned(), json("2"), id("b"), 3, &write).unwrap();
    ledger.succeed(&task.id, "worker", 1, json("1"), 105, 4, &write).unwrap();
    ledger.acknowledge_delivery(&task.id, 5, &write).unwrap();
    let records = disk.0.borrow().len();
    let mut reopened = disk.open();
    for ledger in [&mut ledger, &mut reopened] {
        let again = ledger
            .submit("once".to_owned(), json("[9]"), id("c"), 6, &write)
            .unwrap();
        assert!(!again.created);
        assert_eq!(again.task, ledger.get(&task.id).unwrap());
        assert_eq!(again.task.payload, json("{}"));
        assert_eq!(again.task.delivery, DeliveryState::Acknowledged);
        assert_eq!(ledger.list().len(), 2);
    }
    assert_eq!(disk.0.borrow().len(), records);
}

#[test]
fn records_agree_with_their_status() {
    let disk = Disk::new();
    let write = |e: LedgerEnvelope| disk.write(e);
    let mut ledger = disk.open();
    for (at, name) in ["a", "b", "c", "d", "e", "f"].into_iter().enumerate() {
        ledger.submit(name.to_owned(), json("1"), id(name), at as u64, &write).unwrap();
    }
    let claim = |ledger: &mut JsonlTaskLedger, duration: u64| {
        ledger.claim_next("w".to_owned(), 100, duration, 9, &write).unwrap().unwrap()
    };
    let a = claim(&mut ledger, 50);
    ledger.succeed(&a.id, "w", 1, json("1"), 101, 9, &write).unwrap();
    let b = claim(&mut ledger, 50);
    ledger.fail(&b.id, "w", 1, "e".to_owned(), 101, 9, &write).unwrap();
    let c = claim(&mut ledger, 1);
    ledger.cancel(&id("f"), "no".to_owned(), 9, &write).unwrap();
    ledger.recover_expired(101, 9, &write).unwrap();
    let d = claim(&mut ledger, 50);
    ledger.acknowledge_delivery(&a.id, 10, &write).unwrap();
    let tasks = ledger.list();
    let statuses: Vec<TaskStatus> = tasks.iter().map(|t| t.status).collect();
    assert_eq!(
        statuses,
        vec![
            TaskStatus::Succeeded,
            TaskStatus::Failed,
            TaskStatus::Unknown,
            TaskStatus::Running,
            TaskStatus::Pending,
            TaskStatus::Cancelled,
        ]
    );
    assert_eq!((c.id, d.id), (id("c"), id("d")));
    for task in &tasks {
        assert_eq!(task.lease.is_some(), task.status == TaskStatus::Running);
        assert_eq!(task.delivery == DeliveryState::NotReady, !task.status.is_terminal());
        assert_eq!(task.result.is_some(), task.status == TaskStatus::Succeeded);
        assert_eq!(
            task.error.is_some(),
            task.status.is_terminal() && task.status != TaskStatus::Succeeded
        );
        assert!(task.status != TaskStatus::Pending || task.attempt == 0);
    }
    assert_eq!(disk.open().list(), tasks);
}

#[test]
fn blank_lines_hold_nothing() {
    let broken = || Err("expected value".to_owned());
    assert_eq!(LedgerLine::read(" \t\u{3000}", broken()), LedgerLine::Blank);
    assert_eq!(
        LedgerLine::read("{", broken()),
        LedgerLine::Broken { message: "expected value".to_owned() }
    );
    let disk = Disk::new();
    let (_, _) = claimed(&disk);
    let record = disk.0.borrow()[0].clone();
    assert_eq!(LedgerLine::read("{}", Ok(record.clone())), LedgerLine::Record(record));
}
