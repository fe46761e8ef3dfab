use std::cell::RefCell;

use nausicaa::event::{EventEnvelope, RuntimeEvent};
use nausicaa::id::{EventId, ThreadId, TurnId};
use nausicaa::recovery::recover_thread;
use nausicaa::store::{
    journal_lines, scan_journal, DecodedEvent, EventJournal, EventStamp, EventStore, JournalScan,
    JsonlEventStore, MemoryEventStore, StoreError, WriteOutcome,
};

fn stamp(n: u128) -> EventStamp {
    EventStamp { id: EventId::from_string(format!("event-{n}")), at_unix_ms: n }
}

fn thread() -> ThreadId {
    ThreadId::from_string("thread".to_owned())
}

/// A file in memory. A record is a line with its number and a word for its event.
struct Disk(RefCell<Vec<u8>>);

fn word(event: &RuntimeEvent) -> &'static str {
    match event {
        RuntimeEvent::ThreadStarted => "thread_started",
        _ => "turn_cancelled",
    }
}

impl Disk {
    fn write(&self, envelope: EventEnvelope) -> WriteOutcome {
        let line = format!("[{},\"{}\"]\n", envelope.sequence, word(&envelope.event));
        self.0.borrow_mut().extend_from_slice(line.as_bytes());
        WriteOutcome::Durable
    }

    fn decode(bytes: &[u8]) -> DecodedEvent {
        let value: serde_json::Value = match serde_json::from_slice(bytes) {
            Ok(value) => value,
            Err(error) => {
                return DecodedEvent::Broken {
                    incomplete: error.is_eof(),
                    message: error.to_string(),
                }
            }
        };
        let (Some(sequence), Some(word)) = (
            value.get(0).and_then(serde_json::Value::as_u64),
            value.get(1).and_then(serde_json::Value::as_str),
        ) else {
            return DecodedEvent::Broken {
                incomplete: false,
                message: "missing field `id`".to_owned(),
            };
        };
        DecodedEvent::Record(EventEnvelope {
            id: EventId::from_string(format!("event-{sequence}")),
            sequence,
            at_unix_ms: sequence as u128,
            thread_id: thread(),
            turn_id: None,
            event: match word {
                "thread_started" => RuntimeEvent::ThreadStarted,
                _ => RuntimeEvent::TurnCancelled,
            },
        })
    }

    fn scan(&self) -> Result<JournalScan, StoreError> {
        let bytes = self.0.borrow();
        let lines = journal_lines(&bytes);
        let decoded: Vec<DecodedEvent> = lines
            .iter()
            .map(|line| Self::decode(&bytes[line.start..line.start + line.length]))
            .collect();
        scan_journal(&lines, &decoded)
    }

    fn open(&self) -> Result<JsonlEventStore, StoreError> {
        let scan = self.scan()?;
        let mut tail = None;
        if scan.torn_line.is_some() {
            self.0.borrow_mut().truncate(scan.valid_bytes);
            tail = Some("events.jsonl.torn".to_owned());
        }
        if scan.needs_newline {
            self.0.borrow_mut().push(b'\n');
        }
        Ok(JsonlEventStore::open("events.jsonl".to_owned(), tail, scan))
    }

    fn append(&self, store: &mut JsonlEventStore, n: u128, event: RuntimeEvent) -> EventEnvelope {
        store.append(stamp(n), thread(), None, event, &|e| self.write(e)).unwrap()
    }
}

#[test]
fn incomplete_tail_is_archived_and_new_events_remain_replayable() {
    let disk = Disk(RefCell::new(Vec::new()));
    let mut store = disk.open().unwrap();
    let first = disk.append(&mut store, 0, RuntimeEvent::ThreadStarted);
    let torn = b"{\"id\":\"partial";
    disk.0.borrow_mut().extend_from_slice(torn);
    let scan = disk.scan().unwrap();
    assert_eq!(&disk.0.borrow()[scan.valid_bytes..], torn);
    let mut store = disk.open().unwrap();
    assert!(store.recovered_tail_path().is_some());
    assert_eq!(store.load_thread(&thread()), vec![first]);
    let second = disk.append(&mut store, 1, RuntimeEvent::TurnCancelled);
    assert_eq!(second.sequence, 1);
    let store = disk.open().unwrap();
    assert!(store.recovered_tail_path().is_none());
    assert_eq!(store.load_thread(&thread()).len(), 2);
}

#[test]
fn complete_record_without_newline_is_preserved_before_append() {
    let disk = Disk(RefCell::new(Vec::new()));
    let mut store = disk.open().unwrap();
    disk.append(&mut store, 0, RuntimeEvent::ThreadStarted);
    assert_eq!(disk.0.borrow_mut().pop(), Some(b'\n'));
    let mut store = disk.open().unwrap();
    assert!(store.recovered_tail_path().is_none());
    disk.append(&mut store, 1, RuntimeEvent::TurnCancelled);
    let store = disk.open().unwrap();
    assert_eq!(store.load_thread(&thread()).len(), 2);
}

#[test]
fn corrupt_records_are_rejected_without_changing_the_log() {
    for bytes in [
        b"{\"id\":\n".as_slice(),
        b"not-json",
        b"{\"id\":\n{}\n",
        b"{}",
    ] {
        let disk = Disk(RefCell::new(bytes.to_vec()));
        assert!(matches!(disk.open(), Err(StoreError::Corrupt { .. })));
        assert_eq!(*disk.0.borrow(), bytes);
    }
}

#[test]
fn jsonl_store_round_trips_events() {
    let disk = Disk(RefCell::new(Vec::new()));
    let mut store = disk.open().unwrap();
    disk.append(&mut store, 0, RuntimeEvent::ThreadStarted);

    let reopened = disk.open().unwrap();
    assert_eq!(reopened.path(), "events.jsonl");
    let events = reopened.load_thread(&thread());
    assert_eq!(events.len(), 1);
    assert!(matches!(events[0].event, RuntimeEvent::ThreadStarted));
    assert!(reopened.load_thread(&ThreadId::from_string("other".to_owned())).is_empty());
}

#[test]
fn no_append_behind_a_partial_record() {
    let disk = Disk(RefCell::new(Vec::new()));
    let mut store = disk.open().unwrap();
    let failing = |_: EventEnvelope| WriteOutcome::Failed("disk full".to_owned());
    let unencodable = |_: EventEnvelope| WriteOutcome::NotEncoded("no".to_owned());
    let good = |e: EventEnvelope| disk.write(e);
    assert_eq!(
        store.append(stamp(0), thread(), None, RuntimeEvent::ThreadStarted, &unencodable),
        Err(StoreError::Serialization("no".to_owned()))
    );
    assert_eq!(
        store.append(stamp(0), thread(), None, RuntimeEvent::ThreadStarted, &failing),
        Err(StoreError::Io("disk full".to_owned()))
    );
    assert_eq!(
        store.append(stamp(0), thread(), None, RuntimeEvent::ThreadStarted, &good),
        Err(StoreError::Io(
            "a previous append failed; reopen the event store before writing".to_owned()
        ))
    );
    assert!(store.load_thread(&thread()).is_empty());
}

#[test]
fn journals_are_read_in_the_order_of_their_numbers() {
    let disk = Disk(RefCell::new(
        b"[2,\"turn_cancelled\"]\n\n[0,\"thread_started\"]\n[1,\"turn_cancelled\"]\n".to_vec(),
    ));
    let mut store = disk.open().unwrap();
    let numbers: Vec<u64> = store.load_thread(&thread()).iter().map(|e| e.sequence).collect();
    assert_eq!(numbers, vec![0, 1, 2]);
    assert_eq!(disk.append(&mut store, 9, RuntimeEvent::TurnCancelled).sequence, 3);
}

#[test]
fn events_in_memory_are_numbered_from_zero() {
    let mut store = MemoryEventStore::new();
    for n in 0..3 {
        let envelope =
            store.append(stamp(n), thread(), None, RuntimeEvent::TurnCancelled).unwrap();
        assert_eq!(envelope.sequence, n as u64);
    }
    assert_eq!(store.all_events().len(), 3);
    assert_eq!(store.remaining(), u64::MAX - 3);
    assert_eq!(store.load_thread(&thread()).unwrap().len(), 3);
}

#[test]
fn store_errors_have_their_messages() {
    assert_eq!(
        StoreError::Corrupt { line: 3, message: "x".to_owned() }.to_text(),
        "corrupt event at line 3: x"
    );
    assert_eq!(StoreError::Io("x".to_owned()).to_text(), "event store I/O error: x");
    assert_eq!(
        StoreError::Serialization("x".to_owned()).to_text(),
        "event serialization error: x"
    );
}

#[test]
fn journals_are_recovered_in_their_file() {
    let written: RefCell<Vec<EventEnvelope>> = RefCell::new(Vec::new());
    let scan = JournalScan {
        events: Vec::new(),
        valid_bytes: 0,
        torn_line: None,
        needs_newline: false,
    };
    let mut journal = EventJournal {
        store: JsonlEventStore::open("events.jsonl".to_owned(), None, scan),
        write: |envelope: EventEnvelope| {
            written.borrow_mut().push(envelope);
            WriteOutcome::Durable
        },
    };
    let turn = TurnId::from_string("turn".to_owned());
    journal.append(stamp(0), thread(), None, RuntimeEvent::ThreadStarted).unwrap();
    journal.append(stamp(1), thread(), Some(turn.clone()), RuntimeEvent::TurnStarted).unwrap();
    let report = recover_thread(&mut journal, &thread(), &|| stamp(2)).unwrap();
    assert_eq!(report.turns_marked_failed, vec![turn]);
    assert!(report.receipts_recorded.is_empty());
    assert_eq!(journal.load_thread(&thread()).unwrap().len(), 3);
    assert_eq!(journal.store.remaining(), u64::MAX - 3);
    assert!(recover_thread(&mut journal, &thread(), &|| stamp(3))
        .unwrap()
        .turns_marked_failed
        .is_empty());
    drop(journal);
    let written = written.into_inner();
    assert_eq!(written.len(), 3);
    assert!(matches!(written[2].event, RuntimeEvent::TurnFailed { .. }));
}
