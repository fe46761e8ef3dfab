use std::cell::RefCell;

use nausicaa::eval::{
    check_fixture, default_timeout_seconds, first_input, fixture_policy, scripted_response,
    task_spec, tally, EvalArguments, Evaluation, Fixture, LiveConfig, Mode, RunLabel, RunReport, TurnEnding,
    MAX_ITERATIONS,
};
use nausicaa::event::{EventEnvelope, RuntimeEvent};
use nausicaa::id::{CallId, EventId, ThreadId, TurnId};
use nausicaa::json::{parse, set_member, Json};
use nausicaa::model::{StopReason, TokenUsage};
use nausicaa::policy::{Access, PolicyContext, ToolPolicy};
use nausicaa::protocol::{
    CanonicalAction, EffectKind, PreparedToolCall, RetrySafety, ToolReceipt,
};
use nausicaa::store::WriteOutcome;
use nausicaa::task::{Record, TaskJournal, TaskLine, TaskStatus};

fn fixture(id: &str, proposals: &[&str], max_attempts: u32) -> Fixture {
    Fixture {
        version: 1,
        id: id.to_owned(),
        split: "development".to_owned(),
        objective: "Fix addition".to_owned(),
        initial: "a - b".to_owned(),
        expected: "a + b".to_owned(),
        proposals: proposals.iter().map(|p| (*p).to_owned()).collect(),
        max_attempts,
        deny_write: false,
        interrupt_execution: false,
    }
}

/// Plays the turns of a run: the scripted model proposes, and the file is written unless
/// that is denied or interrupted.
fn run(fixture: &Fixture, mode: Mode) -> (RunReport, Vec<Record>, Vec<String>) {
    check_fixture(fixture, false).unwrap();
    let records: RefCell<Vec<Record>> = RefCell::new(Vec::new());
    let write = |record: Record| {
        records.borrow_mut().push(record);
        WriteOutcome::Durable
    };
    let mut evaluation = Evaluation::begin(fixture.clone(), mode, &write).unwrap();
    let mut events: Vec<EventEnvelope> = Vec::new();
    let mut content = fixture.initial.clone();
    let mut input = first_input(fixture);
    let mut inputs: Vec<String> = Vec::new();
    let mut calls: usize = 0;
    loop {
        let turn = TurnId::from_string(format!("turn-{}", evaluation.attempts()));
        evaluation.start_attempt(&turn, &write).unwrap();
        inputs.push(input);
        let mut push = |event: RuntimeEvent| {
            let sequence = events.len() as u64;
            events.push(EventEnvelope {
                id: EventId::from_string(format!("event-{sequence}")),
                sequence,
                at_unix_ms: 0,
                thread_id: ThreadId::from_string("thread".to_owned()),
                turn_id: Some(turn.clone()),
                event,
            });
        };
        loop {
            push(RuntimeEvent::ModelRequestStarted { iteration: calls });
            let call_id = CallId::from_string(format!("call-{calls}"));
            let response = scripted_response(fixture, calls, call_id).unwrap();
            calls += 1;
            push(RuntimeEvent::AssistantMessage {
                content: response.content.clone(),
                tool_calls: response.tool_calls.clone(),
                stop_reason: response.stop_reason,
                usage: response.usage,
            });
            let Some(call) = response.tool_calls.first() else {
                break;
            };
            let prepared = PreparedToolCall {
                call_id: call.id.clone(),
                action: CanonicalAction::new(
                    call.name.clone(),
                    call.arguments.clone(),
                    EffectKind::WorkspaceWrite,
                    RetrySafety::Idempotent,
                ),
            };
            let receipt = if fixture.interrupt_execution {
                ToolReceipt::unknown(prepared, "interrupted".to_owned())
            } else if fixture.deny_write {
                ToolReceipt::denied(call.id.clone(), call.name.clone(), None, "no".to_owned())
            } else {
                content = call.arguments.get("content").unwrap().as_text().unwrap().clone();
                ToolReceipt::succeeded(prepared, Json::Null)
            };
            push(RuntimeEvent::ToolReceiptRecorded { receipt });
            if fixture.interrupt_execution {
                break;
            }
        }
        let ending = if fixture.interrupt_execution {
            TurnEnding::Interrupted
        } else {
            TurnEnding::Completed
        };
        let attempt = evaluation.judge(&turn, &events, content.clone());
        match evaluation.decide(attempt, ending, &write).unwrap() {
            Some(next) => input = next,
            None => break,
        }
    }
    let label = RunLabel {
        model: "scripted-v1".to_owned(),
        harness_version: "0.1.0".to_owned(),
        artifact_directory: "out".to_owned(),
        live_model: false,
    };
    let report = evaluation.report(label, &events, 5);
    (report, records.into_inner(), inputs)
}

fn replay(records: &[Record]) -> TaskJournal {
    let lines: Vec<TaskLine> = records.iter().map(|r| TaskLine::Record(r.clone())).collect();
    TaskJournal::open(&lines).unwrap()
}

#[test]
fn paired_fixtures_measure_false_completion_repair_and_authority() {
    let repair = fixture("repair", &["a * b", "a + b"], 2);
    let exhausted = fixture("exhausted", &["a * b"], 2);
    let mut denied = fixture("denied", &["a + b"], 2);
    denied.deny_write = true;
    let identity = fixture("identity", &["a + b"], 1);
    let mut unknown = fixture("unknown", &["a + b"], 2);
    unknown.interrupt_execution = true;
    let mut core_false = 0;
    let mut task_false = 0;
    for fixture in [&repair, &exhausted, &denied, &identity, &unknown] {
        let (core, _, _) = run(fixture, Mode::CoreOnly);
        let (task, records, inputs) = run(fixture, Mode::Task);
        core_false += usize::from(core.false_completion);
        task_false += usize::from(task.false_completion);
        assert!(!task.live_model);
        assert_eq!(task.tokens.input_tokens, 0);
        assert!(task.model_iterations <= fixture.max_attempts as usize * 4);
        let replay = replay(&records);
        assert_eq!(Some(&replay.state().status), task.task_status.as_ref());
        assert_eq!(replay.state().attempts, task.attempts);
        match fixture.id.as_str() {
            "repair" => {
                assert!(core.false_completion);
                assert!(task.reported_success && task.verified_success);
                assert_eq!(task.attempts, 2);
                assert_eq!(task.model_iterations, 4);
                assert!(!replay.state().evidence[0].checks[0].passed);
                assert!(replay.state().evidence[1].checks[0].passed);
                assert!(inputs.iter().any(|i| i.contains("Verification feedback:")));
            }
            "exhausted" | "denied" => {
                assert_eq!(task.task_status, Some(TaskStatus::BudgetExhausted))
            }
            "identity" => assert!(core.verified_success && task.verified_success),
            "unknown" => {
                assert_eq!(task.task_status, Some(TaskStatus::Blocked));
                assert_eq!(task.unknown_receipts, 1);
                assert_eq!(core.unknown_receipts, 1);
                assert_eq!(task.attempts, 1);
                assert_eq!(task.interventions, 1);
            }
            _ => panic!("fixture needs expectations"),
        }
        if fixture.deny_write {
            assert_eq!(task.denied_receipts, 2);
            assert_eq!(core.denied_receipts, 1);
            assert!(replay.state().evidence.iter().all(|e| e.receipts.len() == 1));
        }
    }
    assert_eq!(core_false, 3);
    assert_eq!(task_false, 0);
}

#[test]
fn live_timeout_defaults_and_explicit_limits_are_validated_and_retained() {
    let base = parse(
        "{\"endpoint\": \"https://example.test/v1/chat/completions\", \"model_snapshot\": \"fixture-model\", \"revision\": \"fixture-v1\"}",
    )
    .unwrap();
    let legacy = LiveConfig::read(&base).unwrap();
    assert_eq!(legacy.timeout_seconds, 30);
    assert_eq!(default_timeout_seconds(), 30);
    legacy.validate().unwrap();
    for (timeout, valid) in [(0, false), (1, true), (120, true), (300, true), (301, false)] {
        let mut value = base.clone();
        if let Json::Object(members) = &mut value {
            set_member(members, "timeout_seconds", Json::Unsigned(timeout));
        }
        let config = LiveConfig::read(&value).unwrap();
        assert_eq!(config.validate().is_ok(), valid);
        assert_eq!(
            config.provider_settings().get("timeout_seconds"),
            Some(&Json::Unsigned(timeout))
        );
    }
}

#[test]
fn live_models_are_pinned_and_hold_no_credentials() {
    let good = LiveConfig {
        endpoint: "https://example.test".to_owned(),
        model_snapshot: "m".to_owned(),
        revision: "r".to_owned(),
        timeout_seconds: 1,
    };
    good.validate().unwrap();
    for endpoint in ["https://u@example.test", "https://example.test?k", "https://example.test#f"] {
        let bad = LiveConfig {
            endpoint: endpoint.to_owned(),
            model_snapshot: "m".to_owned(),
            revision: "r".to_owned(),
            timeout_seconds: 1,
        };
        assert_eq!(
            bad.validate().unwrap_err(),
            "live config needs a pinned model/revision and an endpoint without embedded credentials or query parameters"
        );
    }
    let config = good.provider_config(Some("k".to_owned()));
    assert_eq!(config.timeout_seconds, 1);
    assert_eq!(
        Json::Object(config.extra_body).to_text(),
        "{\"max_completion_tokens\":1024,\"temperature\":0}"
    );
    for bad in [
        "[]",
        "{}",
        "{\"endpoint\": \"e\", \"model_snapshot\": \"m\", \"revision\": \"r\", \"x\": 1}",
        "{\"endpoint\": \"e\", \"model_snapshot\": \"m\", \"revision\": \"r\", \"timeout_seconds\": \"1\"}",
    ] {
        assert!(LiveConfig::read(&parse(bad).unwrap()).is_none(), "{bad}");
    }
}

#[test]
fn arguments_name_the_output() {
    let read = |args: &[&str]| {
        EvalArguments::read(&args.iter().map(|a| (*a).to_owned()).collect())
    };
    let arguments = read(&["--output", "a", "--live-config", "b"]).unwrap();
    assert_eq!(arguments.output, "a");
    assert_eq!(arguments.live_config.unwrap(), "b");
    assert_eq!(read(&[]).unwrap_err(), "--output NEW_DIRECTORY is required");
    assert_eq!(read(&["--output"]).unwrap_err(), "missing output directory");
    assert_eq!(read(&["--live-config"]).unwrap_err(), "missing live config");
    assert_eq!(
        read(&["-x"]).unwrap_err(),
        "usage: agent-harness-eval --output NEW_DIRECTORY [--live-config CONFIG.json]"
    );
}

#[test]
fn unsound_fixtures_are_refused() {
    for bad in [
        Fixture { version: 2, ..fixture("x", &["a"], 1) },
        fixture("x", &[], 1),
        fixture("x", &["a"], 0),
    ] {
        assert_eq!(check_fixture(&bad, false).unwrap_err(), "unsupported or invalid fixture");
    }
    let mut interrupted = fixture("x", &["a"], 1);
    interrupted.interrupt_execution = true;
    assert!(check_fixture(&interrupted, false).is_ok());
    assert_eq!(
        check_fixture(&interrupted, true).unwrap_err(),
        "interruption injection requires the synchronous scripted model"
    );
    assert!(scripted_response(
        &fixture("x", &[], 1),
        0,
        CallId::from_string("c".to_owned())
    )
    .is_err());
    assert_eq!(task_spec(&interrupted).criteria[0].id, "source-content-v1");
    assert_eq!(MAX_ITERATIONS, 4);
}

#[test]
fn failed_turns_are_not_repeated() {
    let good = |_: Record| WriteOutcome::Durable;
    let mut evaluation =
        Evaluation::begin(fixture("x", &["a"], 3), Mode::Task, &good).unwrap();
    let turn = TurnId::from_string("turn".to_owned());
    evaluation.start_attempt(&turn, &good).unwrap();
    let attempt = evaluation.judge(&turn, &Vec::new(), "wrong".to_owned());
    assert!(!attempt.checks[0].passed);
    let answer =
        evaluation.decide(attempt, TurnEnding::Failed("broken".to_owned()), &good).unwrap();
    assert!(answer.is_none());
    let task = evaluation.task().unwrap();
    assert_eq!(task.state().status, TaskStatus::Blocked);
    assert_eq!(
        task.state().remaining_work.last().unwrap(),
        "Core turn failed; host inspection required before further generation"
    );
}

#[test]
fn tokens_are_added_up() {
    let message = |input_tokens: u64, output_tokens: u64| EventEnvelope {
        id: EventId::from_string("e".to_owned()),
        sequence: 0,
        at_unix_ms: 0,
        thread_id: ThreadId::from_string("t".to_owned()),
        turn_id: None,
        event: RuntimeEvent::AssistantMessage {
            content: String::new(),
            tool_calls: vec![],
            stop_reason: StopReason::EndTurn,
            usage: TokenUsage { input_tokens, output_tokens },
        },
    };
    let counted = tally(&vec![message(1, 2), message(3, 4)]);
    assert_eq!((counted.tokens.input_tokens, counted.tokens.output_tokens), (4, 6));
    assert_eq!((counted.iterations, counted.denied, counted.unknown), (0, 0, 0));
}

#[test]
fn fixtures_grant_writing_unless_they_deny_it() {
    let context = PolicyContext { principal: None, channel: None, agent: None, sandbox: None };
    let mut fixture = fixture("a", &["a + b"], 1);
    let policy = fixture_policy(&fixture);
    assert_eq!(policy.access("write_file", &context), Access::Allow);
    assert_eq!(policy.access("shell", &context), Access::Deny);
    fixture.deny_write = true;
    let policy = fixture_policy(&fixture);
    assert_eq!(policy.clone().access("write_file", &context), Access::Deny);
    assert_eq!(policy.access("shell", &context), Access::Deny);
}
