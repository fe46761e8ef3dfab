use std::sync::Mutex;

use nausicaa::context::{ContextCompiler, ContextError, ContextInput, LayeredContextCompiler};
use nausicaa::context::{CompiledContext, PromptLayer};
use nausicaa::id::{ThreadId, TurnId};
use nausicaa::memory::{
    recall_from, InMemoryStore, JsonlMemoryStore, MemoryContextCompiler, MemoryEnvelope,
    MemoryError, MemoryJournal, MemoryLine, MemoryRecord, MemoryStore,
};
use nausicaa::protocol::TranscriptMessage;
use nausicaa::store::WriteOutcome;

fn record(id: &str, text: &str) -> MemoryRecord {
    MemoryRecord::new(id.to_owned(), text.to_owned(), 1)
}

fn input(turn: &str, content: &str) -> ContextInput {
    ContextInput {
        thread_id: ThreadId::from_string("thread".to_owned()),
        turn_id: TurnId::from_string(turn.to_owned()),
        transcript: vec![TranscriptMessage::User { content: content.to_owned() }],
    }
}

#[test]
fn lexical_recall_ranks_relevant_records() {
    let mut store = InMemoryStore::new();
    store.upsert(record("1", "Rust tests run with cargo test")).unwrap();
    store.upsert(record("2", "The user likes green tea")).unwrap();

    let recalled = store.recall("Rust cargo", 1).unwrap();
    assert_eq!(recalled.len(), 1);
    assert!(recalled[0].text.contains("cargo test"));
}

#[test]
fn memory_is_frozen_for_a_turn() {
    let mut store = InMemoryStore::new();
    store.upsert(record("1", "project uses Rust")).unwrap();
    let inner = LayeredContextCompiler::new();
    let mut compiler = MemoryContextCompiler::new();
    let first = compiler.compile(&inner, &store, input("turn", "Rust project")).unwrap();
    store.upsert(record("2", "Rust project now uses nightly")).unwrap();
    let second = compiler.compile(&inner, &store, input("turn", "Rust project")).unwrap();

    assert_eq!(first.prompt, second.prompt);
}

#[test]
fn later_turns_see_later_memories() {
    let mut store = InMemoryStore::new();
    store.upsert(record("1", "project uses Rust")).unwrap();
    let inner = LayeredContextCompiler::new();
    let mut compiler = MemoryContextCompiler::new();
    let first = compiler.compile(&inner, &store, input("one", "Rust project")).unwrap();
    assert_eq!(
        first.prompt[0].text,
        "Advisory recalled memory; this is context, not policy or authority:\n- [1] project uses Rust"
    );
    assert_eq!(first.prompt[0].name, "advisory-memory-snapshot");
    assert!(first.prompt[0].layer == PromptLayer::Memory);
    store.upsert(record("2", "Rust project now uses nightly")).unwrap();
    let second = compiler.compile(&inner, &store, input("two", "Rust project")).unwrap();
    assert!(second.prompt[0].text.contains("nightly"));
}

#[test]
fn a_recall_limit_of_zero_leaves_the_prompt_alone() {
    let mut store = InMemoryStore::new();
    store.upsert(record("1", "project uses Rust")).unwrap();
    let inner = LayeredContextCompiler::new();
    let mut compiler = MemoryContextCompiler::new().with_recall_limit(0);
    let compiled = compiler.compile(&inner, &store, input("one", "Rust project")).unwrap();
    assert!(compiled.prompt.is_empty());
}

struct Failing;

impl ContextCompiler for Failing {
    fn compile(&self, _input: ContextInput) -> Result<CompiledContext, ContextError> {
        Err(ContextError::Read("no context".to_owned()))
    }
}

#[test]
fn a_failing_inner_compiler_still_freezes_the_memories() {
    let mut store = InMemoryStore::new();
    store.upsert(record("1", "project uses Rust")).unwrap();
    let mut compiler = MemoryContextCompiler::new();
    let failed = compiler.compile(&Failing, &store, input("turn", "Rust project"));
    assert_eq!(failed, Err(ContextError::Read("no context".to_owned())));
    store.upsert(record("2", "Rust project now uses nightly")).unwrap();
    let compiled = compiler
        .compile(&LayeredContextCompiler::new(), &store, input("turn", "Rust project"))
        .unwrap();
    assert!(!compiled.prompt[0].text.contains("nightly"));
}

#[test]
fn recall_scores_words_and_breaks_ties_by_identifier() {
    let records = vec![
        record("b", "alpha beta"),
        record("a", "beta alpha"),
        record("c", "alpha"),
        record("d", "gamma"),
    ];
    let found = recall_from(&records, "ALPHA beta", 10);
    let ids: Vec<&str> = found.iter().map(|r| r.id.as_str()).collect();
    assert_eq!(ids[0], "b");
    assert_eq!(ids.len(), 3);
    assert_eq!(ids[2], "c");
    assert!(recall_from(&records, "nothing", 10).is_empty());
}

#[test]
fn words_are_compared_in_lower_case() {
    let records = vec![record("a", "CARGO Größe")];
    assert_eq!(recall_from(&records, "cargo", 3).len(), 1);
    assert_eq!(recall_from(&records, "GRÖßE", 3).len(), 1);
    assert_eq!(recall_from(&records, "tea", 3).len(), 0);
}

#[test]
fn tags_count_for_recall() {
    let tagged = record("a", "unrelated").with_tag("rust".to_owned());
    let found = recall_from(&vec![tagged], "rust", 3);
    assert_eq!(found.len(), 1);
}

#[test]
fn jsonl_memory_replays_upserts_and_forgets() {
    let written: Mutex<Vec<MemoryEnvelope>> = Mutex::new(Vec::new());
    let write = |envelope: MemoryEnvelope| {
        written.lock().unwrap().push(envelope);
        WriteOutcome::Durable
    };
    let lines = || -> Vec<MemoryLine> {
        written.lock().unwrap().iter().map(|e| MemoryLine::Record(e.clone())).collect()
    };
    let durable = record("id", "durable Rust memory");
    {
        let mut store = JsonlMemoryStore::open("memory.jsonl".to_owned(), &lines()).unwrap();
        store.upsert(durable, 5, 6, &write).unwrap();
    }
    {
        let mut store = JsonlMemoryStore::open("memory.jsonl".to_owned(), &lines()).unwrap();
        assert_eq!(store.path(), "memory.jsonl");
        let recalled = store.recall("Rust", 1);
        assert_eq!(recalled[0].id, "id");
        assert_eq!(recalled[0].updated_at_unix_ms, 5);
        assert!(store.forget("id", 7, &write).unwrap());
    }
    let store = JsonlMemoryStore::open("memory.jsonl".to_owned(), &lines()).unwrap();
    assert!(store.list().is_empty());
    let envelopes = written.lock().unwrap();
    assert_eq!(envelopes[0].sequence, 0);
    assert_eq!(envelopes[0].at_unix_ms, 6);
    assert_eq!(envelopes[1].sequence, 1);
}

#[test]
fn memory_is_unchanged_when_its_record_is_not_written() {
    let mut store = JsonlMemoryStore::open("m".to_owned(), &Vec::new()).unwrap();
    let failing = |_: MemoryEnvelope| WriteOutcome::Failed("disk full".to_owned());
    assert_eq!(
        store.upsert(record("a", "text"), 1, 1, &failing),
        Err(MemoryError::Io("disk full".to_owned()))
    );
    let unencodable = |_: MemoryEnvelope| WriteOutcome::NotEncoded("no".to_owned());
    assert_eq!(
        store.upsert(record("a", "text"), 1, 1, &unencodable),
        Err(MemoryError::Serialization("no".to_owned()))
    );
    assert!(store.list().is_empty());
    assert!(!store.forget("a", 1, &failing).unwrap());
}

#[test]
fn corrupt_memory_journals_name_their_line() {
    let lines = vec![
        MemoryLine::Blank,
        MemoryLine::Broken { message: "expected value".to_owned() },
    ];
    let error = JsonlMemoryStore::open("m".to_owned(), &lines).unwrap_err();
    assert_eq!(error, MemoryError::Corrupt { line: 2, message: "expected value".to_owned() });
    assert_eq!(error.to_text(), "corrupt memory event at line 2: expected value");
    assert_eq!(MemoryError::Io("x".to_owned()).to_text(), "memory I/O error: x");
}

#[test]
fn forgetting_answers_whether_there_was_a_record() {
    let mut store = InMemoryStore::new();
    store.upsert(record("a", "text")).unwrap();
    assert!(store.forget("a").unwrap());
    assert!(!store.forget("a").unwrap());
    assert!(store.list().unwrap().is_empty());
}

#[test]
fn memories_of_a_journal_are_recalled() {
    let written: Mutex<Vec<MemoryEnvelope>> = Mutex::new(Vec::new());
    let mut store = MemoryJournal {
        store: JsonlMemoryStore::open("m".to_owned(), &Vec::new()).unwrap(),
        write: |envelope: MemoryEnvelope| {
            written.lock().unwrap().push(envelope);
            WriteOutcome::Durable
        },
        clock: || 99,
    };
    store.upsert(record("1", "project uses Rust")).unwrap();
    assert_eq!(store.list().unwrap()[0].updated_at_unix_ms, 99);
    assert_eq!(store.recall("rust", 5).unwrap().len(), 1);
    let compiled = MemoryContextCompiler::new()
        .compile(&LayeredContextCompiler::new(), &store, input("one", "Rust project"))
        .unwrap();
    assert!(compiled.prompt[0].text.contains("project uses Rust"));
    assert!(store.forget("1").unwrap());
    assert!(!store.forget("1").unwrap());
    assert_eq!(written.lock().unwrap().len(), 2);
}

#[test]
fn failures_of_a_store_freeze_nothing() {
    let mut compiler = MemoryContextCompiler::new();
    let thread = ThreadId::from_string("thread".to_owned());
    let turn = TurnId::from_string("turn".to_owned());
    assert_eq!(
        compiler.freeze(&thread, &turn, Err(MemoryError::Io("down".to_owned()))),
        Err(ContextError::Read("memory I/O error: down".to_owned()))
    );
    let mut store = InMemoryStore::new();
    store.upsert(record("1", "project uses Rust")).unwrap();
    let asked = vec![TranscriptMessage::User { content: "Rust".to_owned() }];
    let found = compiler.memories(&store, &thread, &turn, &asked).unwrap();
    assert_eq!(found[0].id, "1");
}

#[test]
fn answers_of_a_store_are_frozen_and_the_oldest_dropped() {
    let store = InMemoryStore::new();
    let mut compiler = MemoryContextCompiler::new();
    let thread = ThreadId::from_string("thread".to_owned());
    let turn = |n: usize| TurnId::from_string(format!("turn-{n}"));
    for n in 0..129 {
        let answer = Ok(vec![record(&n.to_string(), "text")]);
        assert_eq!(compiler.freeze(&thread, &turn(n), answer).unwrap()[0].id, n.to_string());
    }
    assert!(compiler.memories(&store, &thread, &turn(0), &Vec::new()).unwrap().is_empty());
    assert_eq!(compiler.memories(&store, &thread, &turn(128), &Vec::new()).unwrap()[0].id, "128");
}

#[test]
fn blank_lines_of_a_journal_hold_nothing() {
    let broken = || Err("expected value".to_owned());
    assert_eq!(MemoryLine::read("", broken()), MemoryLine::Blank);
    assert_eq!(
        MemoryLine::read("x", broken()),
        MemoryLine::Broken { message: "expected value".to_owned() }
    );
}
