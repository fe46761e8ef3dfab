use std::cell::RefCell;

use nausicaa::context::{CompiledContext, ContextCompiler, ContextError, ContextInput};
use nausicaa::context_fs::{FsContextCompiler, FsContextConfig};
use nausicaa::id::{CallId, ThreadId, TurnId};
use nausicaa::json::{parse, Json};
use nausicaa::model::{ModelError, ModelRequest};
use nausicaa::output::{ExternalOutputCompiler, OutputArchive, RetainedOutput};
use nausicaa::protocol::{
    CanonicalAction, EffectKind, PreparedToolCall, ReceiptStatus, RetrySafety, ToolCall,
    ToolReceipt, TranscriptMessage,
};
use nausicaa::provider::{
    HttpRequest, HttpResponse, HttpTransport, OpenAiCompatibleAdapter, OpenAiConfig,
    RequestBudget, RequestTokenCounter, TransportError,
};
use nausicaa::store::WriteOutcome;
use nausicaa::task::{
    apply, initial_state, journal_parts, ArtifactRef, Budget, CompletionGate, Criterion, Record,
    TaskContextCompiler, TaskError, TaskEvent, TaskJournal, TaskLine, TaskSpec, TaskStatus,
};

struct Disk(RefCell<Vec<Record>>);

impl Disk {
    fn new() -> Self {
        Disk(RefCell::new(Vec::new()))
    }

    fn write(&self, record: Record) -> WriteOutcome {
        self.0.borrow_mut().push(record);
        WriteOutcome::Durable
    }

    fn lines(&self) -> Vec<TaskLine> {
        self.0.borrow().iter().map(|r| TaskLine::Record(r.clone())).collect()
    }

    fn open(&self) -> Result<TaskJournal, TaskError> {
        TaskJournal::open(&self.lines())
    }
}

fn spec(max_attempts: u32) -> TaskSpec {
    TaskSpec {
        objective: "Fix addition".to_owned(),
        criteria: vec![Criterion {
            id: "addition".to_owned(),
            artifact_id: "lib.rs".to_owned(),
            expected: "a + b".to_owned(),
        }],
        budget: Budget { max_attempts },
    }
}

fn artifacts(content: &str) -> Vec<ArtifactRef> {
    vec![ArtifactRef { id: "lib.rs".to_owned(), content: content.to_owned() }]
}

#[test]
fn failure_repair_and_success_survive_replay() {
    let disk = Disk::new();
    let write = |r: Record| disk.write(r);
    let mut task = TaskJournal::create(spec(2), &write).unwrap();
    task.start_attempt("turn-1".to_owned(), &write).unwrap();
    task.verify(artifacts("a - b"), vec![], &write).unwrap();
    assert_eq!(task.state().status, TaskStatus::NeedsRepair);
    assert!(task.state().remaining_work[0].contains("addition"));
    let snapshot = task.state().clone();
    let mut task = disk.open().unwrap();
    assert_eq!(task.state(), &snapshot);
    assert!(task.start_attempt("turn-1".to_owned(), &write).is_err());
    task.start_attempt("turn-2".to_owned(), &write).unwrap();
    task.verify(artifacts("a + b"), vec![], &write).unwrap();
    assert_eq!(task.state().status, TaskStatus::Succeeded);
    assert_eq!(task.state().evidence[1].artifacts[0].content, "a + b");
    assert!(task.start_attempt("turn-3".to_owned(), &write).is_err());
    assert!(task.block("overwrite success".to_owned(), &write).is_err());
    let snapshot = task.state().clone();
    assert_eq!(disk.open().unwrap().state(), &snapshot);
}

#[test]
fn missing_duplicate_and_failing_artifacts_cannot_complete() {
    for input in [
        vec![],
        artifacts("wrong"),
        [artifacts("a + b"), artifacts("a + b")].concat(),
    ] {
        let disk = Disk::new();
        let write = |r: Record| disk.write(r);
        let mut task = TaskJournal::create(spec(1), &write).unwrap();
        assert!(task.verify(input.clone(), vec![], &write).is_err());
        task.start_attempt("turn-1".to_owned(), &write).unwrap();
        task.verify(input, vec![], &write).unwrap();
        assert_eq!(task.state().status, TaskStatus::BudgetExhausted);
        assert!(task.start_attempt("turn-2".to_owned(), &write).is_err());
    }
}

#[test]
fn unknown_blocks_and_denied_receipts_are_retained() {
    for unknown in [false, true] {
        let disk = Disk::new();
        let write = |r: Record| disk.write(r);
        let mut task = TaskJournal::create(spec(2), &write).unwrap();
        task.start_attempt("turn-1".to_owned(), &write).unwrap();
        let mut receipt = ToolReceipt::denied(
            CallId::from_string("call".to_owned()),
            "shell".to_owned(),
            None,
            "policy denied".to_owned(),
        );
        if unknown {
            receipt.status = ReceiptStatus::Unknown;
        }
        task.verify(artifacts("a + b"), vec![receipt.clone()], &write).unwrap();
        assert_eq!(
            task.state().status,
            if unknown { TaskStatus::Blocked } else { TaskStatus::Succeeded }
        );
        assert_eq!(task.state().evidence[0].receipts, vec![receipt]);
        assert!(task.start_attempt("retry".to_owned(), &write).is_err());
        let snapshot = task.state().clone();
        assert_eq!(disk.open().unwrap().state(), &snapshot);
    }
}

#[test]
fn interrupted_attempt_requires_host_resolution() {
    let disk = Disk::new();
    let write = |r: Record| disk.write(r);
    let mut task = TaskJournal::create(spec(2), &write).unwrap();
    task.start_attempt("turn-1".to_owned(), &write).unwrap();
    let mut task = disk.open().unwrap();
    assert_eq!(task.state().attempts, 1);
    assert_eq!(task.state().status, TaskStatus::Running);
    assert!(task.start_attempt("turn-2".to_owned(), &write).is_err());
    task.block("host must reconcile interrupted turn".to_owned(), &write).unwrap();
    assert_eq!(task.state().status, TaskStatus::Blocked);
}

#[test]
fn invalid_specs_and_corrupt_journals_fail_closed() {
    let disk = Disk::new();
    let write = |r: Record| disk.write(r);
    for invalid in [
        spec(0),
        TaskSpec { criteria: vec![], ..spec(1) },
        TaskSpec {
            criteria: vec![spec(1).criteria[0].clone(), spec(1).criteria[0].clone()],
            ..spec(1)
        },
    ] {
        assert!(TaskJournal::create(invalid, &write).is_err());
        assert!(disk.0.borrow().is_empty());
    }
    TaskJournal::create(spec(1), &write).unwrap();
    let valid = disk.0.borrow()[0].clone();
    assert_eq!((valid.version, valid.sequence), (1, 0));
    assert!(journal_parts(&b"{}".to_vec()).is_err());
    assert!(journal_parts(&Vec::new()).is_err());
    assert_eq!(journal_parts(&b"{}\n".to_vec()).unwrap().len(), 1);
    for corrupted in [
        vec![Record { version: 2, ..valid.clone() }],
        vec![Record { sequence: 1, ..valid.clone() }],
        vec![valid.clone(), valid.clone()],
        vec![],
    ] {
        let lines: Vec<TaskLine> = corrupted.into_iter().map(TaskLine::Record).collect();
        assert!(TaskJournal::open(&lines).is_err());
    }
    assert_eq!(
        TaskJournal::open(&vec![TaskLine::Broken { message: "bad".to_owned() }]).unwrap_err(),
        TaskError::Json("bad".to_owned())
    );
}

#[test]
fn append_failure_preserves_state_and_poisons_writes() {
    let spec = TaskSpec {
        objective: "test".to_owned(),
        criteria: vec![Criterion {
            id: "check".to_owned(),
            artifact_id: "file".to_owned(),
            expected: "ok".to_owned(),
        }],
        budget: Budget { max_attempts: 1 },
    };
    let full = |_: Record| WriteOutcome::Failed("No space left on device".to_owned());
    let good = |_: Record| WriteOutcome::Durable;
    let mut journal = TaskJournal::create(spec, &good).unwrap();
    let before = journal.state().clone();
    assert!(matches!(
        journal.start_attempt("turn".to_owned(), &full),
        Err(TaskError::Io(_))
    ));
    assert_eq!(journal.state(), &before);
    assert!(journal.poisoned());
    assert!(matches!(
        journal.start_attempt("turn".to_owned(), &good),
        Err(TaskError::Invalid(_))
    ));
}

struct Files(FsContextCompiler);

impl ContextCompiler for Files {
    fn compile(&self, input: ContextInput) -> Result<CompiledContext, ContextError> {
        let prompt = self.0.compile_prompt(Ok(vec![]), &vec![], &vec![]);
        let sizes = vec![0; input.transcript.len()];
        self.0.compile(prompt, input.transcript, &sizes)
    }
}

fn one_group() -> Files {
    let mut config = FsContextConfig::new("/w".to_owned(), "/w".to_owned());
    config.max_transcript_groups = Some(1);
    Files(FsContextCompiler::new(config))
}

#[test]
fn task_contract_survives_compaction_without_changing_call_receipt_groups() {
    let original = spec(2);
    let compiler = TaskContextCompiler::new(one_group(), &original).unwrap();
    let call = ToolCall::new(
        CallId::from_string("call".to_owned()),
        "hidden".to_owned(),
        parse("{}").unwrap(),
    );
    let receipt = ToolReceipt::denied(
        call.id.clone(),
        "hidden".to_owned(),
        None,
        "denied".to_owned(),
    );
    let group = vec![
        TranscriptMessage::Assistant { content: String::new(), tool_calls: vec![call] },
        TranscriptMessage::Tool { receipt },
    ];
    let mut transcript = vec![TranscriptMessage::User {
        content: "old objective that will be dropped".repeat(1000),
    }];
    transcript.extend(group.clone());
    let context = compiler
        .compile(ContextInput {
            thread_id: ThreadId::from_string("thread".to_owned()),
            turn_id: TurnId::from_string("turn".to_owned()),
            transcript,
        })
        .unwrap();
    assert_eq!(context.messages, group);
    let pinned = context.prompt.iter().find(|p| p.name == "task-contract-v1").unwrap();
    let text = pinned.text.split_once('\n').unwrap().1;
    assert_eq!(
        parse(text).unwrap(),
        parse("{\"objective\":\"Fix addition\",\"criteria\":[{\"id\":\"addition\",\"artifact_id\":\"lib.rs\",\"expected\":\"a + b\"}],\"budget\":{\"max_attempts\":2}}").unwrap()
    );
    assert!(!context.messages.iter().any(|m| matches!(m, TranscriptMessage::User { .. })));
}

struct Counter;

impl RequestTokenCounter for Counter {
    fn count_input_tokens(&self, body: &Json) -> Result<u64, ModelError> {
        // Deterministic byte oracle for the integration fixture only.
        Ok(body.to_text().len() as u64)
    }
}

struct Transport(RefCell<Vec<Json>>);

impl HttpTransport for Transport {
    fn post_json(&self, request: HttpRequest) -> Result<HttpResponse, TransportError> {
        self.0.borrow_mut().push(request.body);
        Ok(HttpResponse {
            status: 200,
            body: parse("{\"choices\": [{\"message\": {\"content\": \"done\"}, \"finish_reason\": \"stop\"}]}").unwrap(),
        })
    }
}

struct Slim<'a>(&'a RefCell<Vec<RetainedOutput>>);

impl ContextCompiler for Slim<'_> {
    fn compile(&self, input: ContextInput) -> Result<CompiledContext, ContextError> {
        let keep = |output: RetainedOutput| {
            self.0.borrow_mut().push(output);
            Ok(())
        };
        ExternalOutputCompiler::new(256).compile(&one_group(), &keep, input)
    }
}

#[test]
fn long_output_and_compacted_history_fit_final_request_with_contract_and_receipts() {
    let kept: RefCell<Vec<RetainedOutput>> = RefCell::new(Vec::new());
    let archive = OutputArchive::new("archive".to_owned(), 100_000).unwrap();
    let compiler = TaskContextCompiler::new(Slim(&kept), &spec(2)).unwrap();
    let thread = ThreadId::from_string("thread".to_owned());
    let call = ToolCall::new(
        CallId::from_string("call".to_owned()),
        "logs".to_owned(),
        parse("{}").unwrap(),
    );
    let receipt = ToolReceipt::succeeded(
        PreparedToolCall {
            call_id: call.id.clone(),
            action: CanonicalAction::new(
                "logs".to_owned(),
                parse("{}").unwrap(),
                EffectKind::ReadOnly,
                RetrySafety::Safe,
            ),
        },
        Json::Text("long output".repeat(5000)),
    );
    let compiled = compiler
        .compile(ContextInput {
            thread_id: thread.clone(),
            turn_id: TurnId::from_string("turn".to_owned()),
            transcript: vec![
                TranscriptMessage::User { content: "old chat".repeat(10_000) },
                TranscriptMessage::Assistant {
                    content: String::new(),
                    tool_calls: vec![call.clone()],
                },
                TranscriptMessage::Tool { receipt: receipt.clone() },
            ],
        })
        .unwrap();
    assert_eq!(compiled.messages.len(), 2);
    assert!(compiled.prompt.iter().any(|s| s.name == "task-contract-v1"));
    assert_eq!(receipt.output.unwrap().as_text().unwrap().len(), 55_000);
    let kept = kept.borrow();
    assert_eq!(kept[0].call_id, call.id);
    let page = archive.read_page(call.id.as_str(), &kept[0].bytes, 0, 256).unwrap();
    assert_eq!(page.get("total_bytes"), Some(&Json::Unsigned(55_002)));
    let transport = Transport(RefCell::new(vec![]));
    let adapter = OpenAiCompatibleAdapter::new(OpenAiConfig::new(
        "https://example.test".to_owned(),
        "fixture-byte-counter".to_owned(),
    ))
    .with_request_budget(RequestBudget {
        context_window_tokens: 3000,
        reserved_output_tokens: 100,
    })
    .unwrap();
    let request = ModelRequest {
        thread_id: thread,
        turn_id: TurnId::from_string("turn".to_owned()),
        iteration: 0,
        context: compiled,
        tools: vec![],
    };
    assert!(adapter.complete_blocking(&request, &transport, &Counter).is_ok());
    let requests = transport.0.borrow();
    assert_eq!(requests.len(), 1);
    assert!(requests[0].to_text().len() <= 2900);
}

#[test]
fn feedback_names_the_criterion_and_quotes_the_contents() {
    let checks = CompletionGate::check(&spec(1), &artifacts("a \"-\" b"));
    assert!(!checks[0].passed);
    assert!(checks[0].feedback.contains("addition"));
    assert!(CompletionGate::check(&spec(1), &artifacts("a + b"))[0].passed);
}

#[test]
fn specifications_are_immutable_and_changes_need_their_state() {
    let state = initial_state(spec(1)).unwrap();
    assert_eq!(
        apply(&state, &TaskEvent::Created { spec: spec(1) }).unwrap_err(),
        TaskError::Invalid("task specification is immutable".to_owned())
    );
    assert!(apply(&state, &TaskEvent::AttemptStarted { turn_id: " ".to_owned() }).is_err());
    assert!(apply(&state, &TaskEvent::Blocked { reason: "".to_owned() }).is_err());
    let blocked = apply(&state, &TaskEvent::Blocked { reason: "wait".to_owned() }).unwrap();
    assert_eq!(blocked.status, TaskStatus::Blocked);
    assert_eq!(blocked.remaining_work.last().unwrap(), "wait");
    assert_eq!(TaskError::Io("x".to_owned()).to_text(), "task journal I/O: x");
}
