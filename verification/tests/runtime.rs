use std::cell::{Cell, RefCell};
use std::collections::VecDeque;

use nausicaa::approval::{ApprovalDecision, ApprovalRequest, DenyAllApprovals};
use nausicaa::context::{CompiledContext, ContextCompiler, LayeredContextCompiler, ResolvedPath};
use nausicaa::event::{EventEnvelope, HookPoint, RuntimeEvent};
use nausicaa::executor::{DirectExecutor, RejectingExecutor};
use nausicaa::hook::{Hook, HookContext, HookSet};
use nausicaa::id::{CallId, EventId, ThreadId, TurnId};
use nausicaa::json::{parse, text_json, with_member, no_members, Json};
use nausicaa::keyed::Keyed;
use nausicaa::model::{ModelError, ModelRequest, ModelResponse, StopReason, TokenUsage};
use nausicaa::output::ReadOutputTool;
use nausicaa::policy::{project_capabilities, Access, CapabilityPolicy, PolicyContext};
use nausicaa::process::{
    run_plainly, LocalProcessRunner, ProcessError, ProcessOutput, ProcessRequest, ProcessRunner,
    ShellTool,
};
use nausicaa::protocol::{
    CanonicalAction, EffectKind, PreparedToolCall, ReceiptStatus, RetrySafety, ToolCall,
    ToolReceipt, TranscriptMessage,
};
use nausicaa::provider::{
    HttpControl, HttpRequest, HttpResponse, HttpTransport, OpenAiCompatibleAdapter, OpenAiConfig,
    RequestTokenCounter, TransportError,
};
use nausicaa::recovery::recover_thread;
use nausicaa::runtime::{AgentRuntime, RuntimeConfig};
use nausicaa::store::{EventStamp, EventStore, MemoryEventStore, StoreError};
use nausicaa::tool::{ToolDefinition, ToolError, ToolOutput, ToolRegistry};
use nausicaa::transport::{check_progress, CurlExchange};
use nausicaa::turn::{validate_tool_calls, Action, Reply, RuntimeError, TurnOutcome};

fn json(text: &str) -> Json {
    parse(text).unwrap()
}

fn call(id: &str, name: &str, arguments: &str) -> ToolCall {
    ToolCall::new(CallId::from_string(id.to_owned()), name.to_owned(), json(arguments))
}

#[derive(Clone, Copy)]
enum Approvals {
    DenyAll,
    Exact,
    Mismatched,
}

#[derive(Clone, Copy, PartialEq)]
enum Tool {
    Echo,
    ReadOutput,
    Shell,
}

#[derive(Clone, Copy)]
enum Execution {
    Direct,
    Rejecting,
    Unknown,
    Failing,
    /// A shell whose command runs when the turn is cancelled.
    CancelledShell,
}

fn shell() -> ShellTool {
    let workspace = ResolvedPath { shown: "/w".to_owned(), components: vec!["w".to_owned()] };
    ShellTool::new(Ok(workspace), true).unwrap()
}

/// Commands that were started.
struct Started(RefCell<Vec<ProcessRequest>>);

impl ProcessRunner for Started {
    fn run(&self, request: &ProcessRequest) -> Result<ProcessOutput, ProcessError> {
        self.0.borrow_mut().push(request.clone());
        Ok(ProcessOutput {
            exit_code: None,
            stdout: String::new(),
            stderr: String::new(),
            timed_out: false,
            stdout_truncated: false,
            stderr_truncated: false,
        })
    }
}

struct Guard(Option<HookPoint>);

impl Guard {
    fn verdict(&self, point: HookPoint) -> Result<(), String> {
        if self.0 == Some(point) {
            Err("not today".to_owned())
        } else {
            Ok(())
        }
    }
}

impl Hook for Guard {
    fn name(&self) -> String {
        "guard".to_owned()
    }

    fn before_model(&self, _: &HookContext, _: &CompiledContext) -> Result<(), String> {
        self.verdict(HookPoint::BeforeModel)
    }

    fn before_tool(&self, _: &HookContext, _: &PreparedToolCall) -> Result<(), String> {
        self.verdict(HookPoint::BeforeTool)
    }

    fn after_tool(&self, _: &HookContext, _: &ToolReceipt) -> Result<(), String> {
        self.verdict(HookPoint::AfterTool)
    }
}

/// A host that runs turns against scripted answers.
struct Host {
    runtime: AgentRuntime<CapabilityPolicy, Tool>,
    store: MemoryEventStore,
    compiler: LayeredContextCompiler,
    responses: VecDeque<ModelResponse>,
    requests: Vec<ModelRequest>,
    executions: usize,
    execution: Execution,
    approvals: Approvals,
    hooks: HookSet<Guard>,
    /// Cancel at this poll.
    cancel_at: Option<usize>,
    polls: usize,
    commands: Started,
    failure: String,
    /// Fail the append of receipts.
    lose_receipts: bool,
    stamps: Cell<u128>,
    turns: usize,
}

fn echo_definition() -> ToolDefinition {
    ToolDefinition::new(
        "echo".to_owned(),
        "Returns a normalized message".to_owned(),
        json("{\"type\":\"object\",\"properties\":{\"message\":{\"type\":\"string\"}},\"required\":[\"message\"],\"additionalProperties\":false}"),
    )
}

fn stamp(stamps: &Cell<u128>) -> EventStamp {
    let n = stamps.get();
    stamps.set(n + 1);
    EventStamp { id: EventId::from_string(format!("event-{n}")), at_unix_ms: n }
}

impl Host {
    fn new(policy: CapabilityPolicy, responses: Vec<ModelResponse>) -> Self {
        let mut tools: ToolRegistry<Tool> = ToolRegistry::new();
        tools.register(echo_definition(), Tool::Echo).unwrap();
        Self::with_tools(tools, policy, responses)
    }

    fn with_tools(
        tools: ToolRegistry<Tool>,
        policy: CapabilityPolicy,
        responses: Vec<ModelResponse>,
    ) -> Self {
        let mut host = Host {
            runtime: AgentRuntime::new(tools, policy),
            store: MemoryEventStore::new(),
            compiler: LayeredContextCompiler::new(),
            responses: responses.into_iter().collect(),
            requests: Vec::new(),
            executions: 0,
            execution: Execution::Direct,
            approvals: Approvals::DenyAll,
            hooks: HookSet::new(),
            cancel_at: None,
            polls: 0,
            commands: Started(RefCell::new(Vec::new())),
            failure: "script exhausted".to_owned(),
            lose_receipts: false,
            stamps: Cell::new(0),
            turns: 0,
        };
        host.append(None, RuntimeEvent::ThreadStarted).unwrap();
        host
    }

    fn thread(&self) -> ThreadId {
        ThreadId::from_string("thread".to_owned())
    }

    fn append(&mut self, turn: Option<&TurnId>, event: RuntimeEvent) -> Result<(), StoreError> {
        if self.lose_receipts && matches!(event, RuntimeEvent::ToolReceiptRecorded { .. }) {
            return Err(StoreError::Io("disk full".to_owned()));
        }
        let thread = self.thread();
        let stamp = stamp(&self.stamps);
        self.store.append(stamp, thread, turn.cloned(), event).map(|_| ())
    }

    fn events(&self) -> Vec<EventEnvelope> {
        self.store.load_thread(&self.thread()).unwrap()
    }

    fn prepare(&self, call: &ToolCall, turn: &TurnId) -> Result<PreparedToolCall, ToolError> {
        let context = self.runtime.tool_context(&self.thread(), turn);
        match self.runtime.tool(&call.name) {
            Some(Tool::ReadOutput) => ReadOutputTool.prepare(call, &context),
            Some(Tool::Shell) => shell().prepare(call),
            _ => {
                let message = call.arguments.get("message").and_then(|m| m.as_text()).ok_or_else(
                    || ToolError::InvalidArguments("`message` must be a string".to_owned()),
                )?;
                Ok(PreparedToolCall {
                    call_id: call.id.clone(),
                    action: CanonicalAction::new(
                        "echo".to_owned(),
                        Json::Object(with_member(
                            no_members(),
                            "message",
                            text_json(message.trim()),
                        )),
                        EffectKind::ReadOnly,
                        RetrySafety::Safe,
                    ),
                })
            }
        }
    }

    fn decide(&self, request: ApprovalRequest) -> ApprovalDecision {
        match self.approvals {
            Approvals::DenyAll => DenyAllApprovals.request(&request),
            Approvals::Exact => ApprovalDecision::Approved { action: request.action },
            Approvals::Mismatched => {
                let mut different = request.action;
                different.scope = Some("a-different-scope".to_owned());
                ApprovalDecision::Approved { action: different }
            }
        }
    }

    fn execute(&mut self, prepared: PreparedToolCall) -> Result<ToolOutput, ToolError> {
        match self.execution {
            Execution::Rejecting => RejectingExecutor.execute(),
            Execution::Direct => {
                self.executions += 1;
                let tool = |call: PreparedToolCall| Ok(ToolOutput::new(call.action.arguments));
                DirectExecutor.execute(&tool, prepared)
            }
            Execution::Unknown => {
                self.executions += 1;
                Err(ToolError::OutcomeUnknown("connection lost".to_owned()))
            }
            Execution::CancelledShell => {
                self.executions += 1;
                let request = shell().request(&prepared).unwrap();
                let commands = &self.commands;
                let seen = || !commands.0.borrow().is_empty();
                shell().outcome(run_plainly(commands, &request, &seen))
            }
            Execution::Failing => {
                self.executions += 1;
                Err(ToolError::Execution("broken".to_owned()))
            }
        }
    }

    fn run_turn(&mut self, input: &str) -> Result<TurnOutcome, RuntimeError> {
        self.turns += 1;
        let turn_id = TurnId::from_string(format!("turn-{}", self.turns));
        self.run(turn_id, input)
    }

    fn run(&mut self, turn_id: TurnId, input: &str) -> Result<TurnOutcome, RuntimeError> {
        let thread = self.thread();
        let mut turn =
            self.runtime.begin_turn(&self.events(), &thread, &turn_id, input.to_owned())?;
        let stamps = &self.stamps;
        recover_thread(&mut self.store, &thread, &|| stamp(stamps)).unwrap();
        loop {
            let reply = match turn.pending() {
                Action::Finish(result) => {
                    self.runtime.release_thread(&thread);
                    return result;
                }
                Action::Persist(event) => Reply::Persisted(self.append(Some(&turn_id), event)),
                Action::LoadThread => Reply::Loaded(self.store.load_thread(&thread)),
                Action::PollCancellation => {
                    self.polls += 1;
                    let running = !self.commands.0.borrow().is_empty();
                    Reply::Polled(running || self.cancel_at == Some(self.polls))
                }
                Action::Compile(input) => Reply::Compiled(self.compiler.compile(input)),
                Action::CheckModel { context, compiled } => {
                    Reply::Checked(self.hooks.before_model(&context, &compiled))
                }
                Action::AskModel(request) => {
                    self.requests.push(request);
                    Reply::Answered(self.responses.pop_front().ok_or_else(|| {
                        ModelError::new(self.failure.clone(), false)
                    }))
                }
                Action::Prepare { call } => Reply::Prepared(self.prepare(&call, &turn_id)),
                Action::CheckTool { context, prepared } => {
                    Reply::Checked(self.hooks.before_tool(&context, &prepared))
                }
                Action::RequestApproval(request) => Reply::Decided(Ok(self.decide(request))),
                Action::Execute(prepared) => Reply::Executed(self.execute(prepared)),
                Action::CheckReceipt { context, receipt } => {
                    Reply::Checked(self.hooks.after_tool(&context, &receipt))
                }
            };
            assert!(turn.accepts(&reply));
            turn = turn.advance(reply);
        }
    }

    fn count(&self, wanted: fn(&RuntimeEvent) -> bool) -> usize {
        self.events().iter().filter(|e| wanted(&e.event)).count()
    }
}

fn allow_echo() -> CapabilityPolicy {
    CapabilityPolicy::deny_by_default().grant("echo".to_owned(), Access::Allow)
}

fn ask_echo() -> CapabilityPolicy {
    CapabilityPolicy::deny_by_default().grant("echo".to_owned(), Access::Ask)
}

fn text(content: &str) -> ModelResponse {
    ModelResponse::text(content.to_owned())
}

fn echo_script(message: &str, then: &str) -> Vec<ModelResponse> {
    vec![
        ModelResponse::tool_calls(vec![call(
            "call-1",
            "echo",
            &format!("{{\"message\": \"{message}\"}}"),
        )]),
        text(then),
    ]
}

fn last_receipt(request: &ModelRequest) -> &ToolReceipt {
    match request.context.messages.last() {
        Some(TranscriptMessage::Tool { receipt }) => receipt,
        other => panic!("{other:?}"),
    }
}

#[test]
fn receipt_is_durable_before_the_next_model_request() {
    let mut host = Host::new(allow_echo(), echo_script("  hello  ", "done"));
    let outcome = host.run_turn("echo it").unwrap();

    assert_eq!(outcome.content, "done");
    assert_eq!(host.executions, 1);
    assert_eq!(host.requests.len(), 2);
    assert_eq!(last_receipt(&host.requests[1]).status, ReceiptStatus::Succeeded);
    assert_eq!(
        last_receipt(&host.requests[1]).output,
        Some(json("{\"message\": \"hello\"}"))
    );

    let events = host.events();
    let started = events
        .iter()
        .find(|event| matches!(event.event, RuntimeEvent::ToolExecutionStarted { .. }))
        .unwrap()
        .sequence;
    let receipt = events
        .iter()
        .find(|event| matches!(event.event, RuntimeEvent::ToolReceiptRecorded { .. }))
        .unwrap()
        .sequence;
    let second_model_request = events
        .iter()
        .find(|event| matches!(event.event, RuntimeEvent::ModelRequestStarted { iteration: 1 }))
        .unwrap()
        .sequence;
    assert!(started < receipt && receipt < second_model_request);
}

#[test]
fn denied_tools_are_not_projected_to_the_model() {
    let mut host = Host::new(CapabilityPolicy::deny_by_default(), vec![text("done")]);
    host.run_turn("hello").unwrap();

    assert!(host.requests[0].tools.is_empty());
}

#[test]
fn child_capabilities_cannot_expand_the_parent() {
    let names = vec!["echo".to_owned(), "write".to_owned()];
    let parent_policy = CapabilityPolicy::deny_by_default()
        .grant("echo".to_owned(), Access::Ask)
        .grant("write".to_owned(), Access::Deny);
    let child_policy = CapabilityPolicy::deny_by_default()
        .grant("echo".to_owned(), Access::Allow)
        .grant("write".to_owned(), Access::Allow);
    let context = PolicyContext::default();
    let parent = project_capabilities(&names, &parent_policy, &context, None);
    let child = project_capabilities(&names, &child_policy, &context, Some(&parent));

    assert_eq!(child.access("echo"), Access::Ask);
    assert_eq!(child.access("write"), Access::Deny);
}

#[test]
fn duplicate_call_ids_fail_before_any_tool_execution() {
    let twice = call("call", "echo", "{\"message\": \"hello\"}");
    let mut host = Host::new(
        allow_echo(),
        vec![ModelResponse::tool_calls(vec![twice.clone(), twice])],
    );
    let error = host.run_turn("echo").unwrap_err();

    assert!(matches!(error, RuntimeError::InvalidModelResponse { .. }));
    assert_eq!(host.executions, 0);
    assert_eq!(host.count(|e| matches!(e, RuntimeEvent::AssistantMessage { .. })), 0);
}

#[test]
fn exact_approval_allows_execution() {
    let mut host = Host::new(ask_echo(), echo_script("hello", "done"));
    host.approvals = Approvals::Exact;
    host.run_turn("echo").unwrap();

    assert_eq!(host.executions, 1);
}

#[test]
fn mismatched_approval_never_crosses_the_executor_boundary() {
    let mut host = Host::new(ask_echo(), echo_script("hello", "handled denial"));
    host.approvals = Approvals::Mismatched;
    host.run_turn("echo").unwrap();

    assert_eq!(host.executions, 0);
    assert_eq!(host.count(|e| matches!(e, RuntimeEvent::ToolExecutionStarted { .. })), 0);
    assert_eq!(last_receipt(&host.requests[1]).status, ReceiptStatus::Denied);
}

#[test]
fn interrupted_execution_becomes_unknown_and_is_not_replayed() {
    let mut store = MemoryEventStore::new();
    let thread = ThreadId::from_string("thread".to_owned());
    let turn = TurnId::from_string("turn".to_owned());
    let call = call("call", "send_email", "{ \"to\": \"person@example.test\" }");
    let prepared = PreparedToolCall {
        call_id: call.id.clone(),
        action: CanonicalAction::new(
            "send_email".to_owned(),
            call.arguments.clone(),
            EffectKind::ExternalSideEffect,
            RetrySafety::Unsafe,
        ),
    };
    let stamps = Cell::new(0);
    let mut append = |turn: Option<&TurnId>, event: RuntimeEvent| {
        store.append(stamp(&stamps), thread.clone(), turn.cloned(), event).unwrap();
    };
    append(None, RuntimeEvent::ThreadStarted);
    append(Some(&turn), RuntimeEvent::TurnStarted);
    append(
        Some(&turn),
        RuntimeEvent::AssistantMessage {
            content: String::new(),
            tool_calls: vec![call],
            stop_reason: StopReason::ToolUse,
            usage: TokenUsage::default(),
        },
    );
    append(Some(&turn), RuntimeEvent::ToolPrepared { prepared: prepared.clone() });
    append(Some(&turn), RuntimeEvent::ToolExecutionStarted { prepared });

    let report = recover_thread(&mut store, &thread, &|| stamp(&stamps)).unwrap();

    assert_eq!(report.receipts_recorded.len(), 1);
    assert_eq!(report.receipts_recorded[0].status, ReceiptStatus::Unknown);
    assert_eq!(report.turns_marked_failed, vec![turn]);
    assert!(recover_thread(&mut store, &thread, &|| stamp(&stamps))
        .unwrap()
        .receipts_recorded
        .is_empty());
}

#[test]
fn registering_retrieval_does_not_authorize_it() {
    let mut tools: ToolRegistry<Tool> = ToolRegistry::new();
    tools.register(ReadOutputTool.definition(), Tool::ReadOutput).unwrap();
    let script = vec![
        ModelResponse::tool_calls(vec![call("c", "read_output", "{\"call_id\": \"original\"}")]),
        text("done"),
    ];
    let mut host = Host::with_tools(tools, CapabilityPolicy::deny_by_default(), script);
    host.run_turn("read evidence").unwrap();
    assert!(host.requests.iter().all(|request| request.tools.is_empty()));
    assert!(
        host.count(|e| matches!(e, RuntimeEvent::ToolReceiptRecorded { receipt } if receipt.status == ReceiptStatus::Denied))
            > 0
    );
    assert_eq!(host.count(|e| matches!(e, RuntimeEvent::ToolExecutionStarted { .. })), 0);
}

#[test]
fn denial_without_approval_is_a_receipt() {
    let mut host = Host::new(ask_echo(), echo_script("hello", "fine"));
    host.run_turn("echo").unwrap();
    assert_eq!(host.executions, 0);
    assert_eq!(last_receipt(&host.requests[1]).status, ReceiptStatus::Denied);
}

#[test]
fn rejected_executions_are_failed_receipts() {
    let mut host = Host::new(allow_echo(), echo_script("hello", "fine"));
    host.execution = Execution::Rejecting;
    host.run_turn("echo").unwrap();
    assert_eq!(host.executions, 0);
    assert_eq!(last_receipt(&host.requests[1]).status, ReceiptStatus::Failed);
}

#[test]
fn unknown_outcomes_are_unknown_receipts() {
    let mut host = Host::new(allow_echo(), echo_script("hello", "fine"));
    host.execution = Execution::Unknown;
    host.run_turn("echo").unwrap();
    assert_eq!(last_receipt(&host.requests[1]).status, ReceiptStatus::Unknown);
}

#[test]
fn failed_executions_and_malformed_calls_are_failed_receipts() {
    let script = vec![
        ModelResponse::tool_calls(vec![
            call("a", "echo", "{\"message\": \"x\"}"),
            call("b", "echo", "{}"),
            call("c", "missing", "{}"),
        ]),
        text("fine"),
    ];
    let mut host = Host::new(allow_echo(), script);
    host.execution = Execution::Failing;
    host.run_turn("echo").unwrap();
    assert_eq!(host.executions, 1);
    let statuses: Vec<ReceiptStatus> = host
        .events()
        .iter()
        .filter_map(|e| match &e.event {
            RuntimeEvent::ToolReceiptRecorded { receipt } => Some(receipt.status),
            _ => None,
        })
        .collect();
    assert_eq!(statuses[0], ReceiptStatus::Failed);
    assert_eq!(statuses[1], ReceiptStatus::Failed);
    assert_eq!(statuses.len(), 3);
}

#[test]
fn cancellation_ends_a_turn_and_closes_its_calls() {
    for at in 1..8 {
        let mut host = Host::new(allow_echo(), echo_script("hello", "fine"));
        host.cancel_at = Some(at);
        let result = host.run_turn("echo");
        if host.polls < at {
            assert!(result.is_ok());
            continue;
        }
        assert!(matches!(result, Err(RuntimeError::Cancelled(_))), "{at}: {result:?}");
        assert!(matches!(
            host.events().last().unwrap().event,
            RuntimeEvent::TurnCancelled
        ));
        let calls: usize = host
            .events()
            .iter()
            .map(|e| match &e.event {
                RuntimeEvent::AssistantMessage { tool_calls, .. } => tool_calls.len(),
                _ => 0,
            })
            .sum();
        assert_eq!(
            host.count(|e| matches!(e, RuntimeEvent::ToolReceiptRecorded { .. })),
            calls
        );
    }
}

#[test]
fn lost_receipts_are_reported_as_unknown() {
    let mut host = Host::new(allow_echo(), echo_script("hello", "fine"));
    host.lose_receipts = true;
    assert!(matches!(
        host.run_turn("echo"),
        Err(RuntimeError::ReceiptPersistenceUnknown { .. })
    ));
    host.lose_receipts = false;
    host.responses.push_back(text("again"));
    host.responses.pop_front();
    host.run_turn("next").unwrap();
    assert_eq!(
        host.count(|e| matches!(e, RuntimeEvent::ToolReceiptRecorded { receipt } if receipt.status == ReceiptStatus::Unknown)),
        1
    );
    assert_eq!(host.executions, 1);
}

#[test]
fn endless_turns_are_stopped() {
    let script = (0..3)
        .map(|n| {
            ModelResponse::tool_calls(vec![call(
                &format!("call-{n}"),
                "echo",
                "{\"message\": \"x\"}",
            )])
        })
        .collect();
    let mut host = Host::new(allow_echo(), script);
    let mut config = RuntimeConfig::default();
    config.max_model_iterations = 2;
    let runtime = std::mem::replace(
        &mut host.runtime,
        AgentRuntime::new(ToolRegistry::new(), CapabilityPolicy::deny_by_default()),
    );
    host.runtime = runtime.with_config(config);
    assert!(matches!(
        host.run_turn("loop"),
        Err(RuntimeError::MaxModelIterations { maximum: 2, .. })
    ));
    assert_eq!(host.executions, 2);
}

#[test]
fn hooks_can_stop_a_turn_but_not_hide_a_receipt() {
    for (point, executions) in
        [(HookPoint::BeforeModel, 0), (HookPoint::BeforeTool, 0), (HookPoint::AfterTool, 1)]
    {
        let mut host = Host::new(allow_echo(), echo_script("hello", "fine"));
        host.hooks.push(Guard(None));
        host.hooks.push(Guard(Some(point)));
        let _ = host.run_turn("echo");
        assert_eq!(host.executions, executions);
        assert_eq!(
            host.count(|e| matches!(e, RuntimeEvent::ToolReceiptRecorded { .. })),
            host.count(
                |e| matches!(e, RuntimeEvent::AssistantMessage { tool_calls, .. } if !tool_calls.is_empty())
            ),
        );
        assert_eq!(host.count(|e| matches!(e, RuntimeEvent::HookFailed { .. })), 1);
    }
}

#[test]
fn turns_are_admitted_once_and_one_at_a_time() {
    let mut host = Host::new(allow_echo(), vec![text("one"), text("two")]);
    let turn = TurnId::from_string("turn".to_owned());
    host.run(turn.clone(), "hello").unwrap();
    assert!(matches!(
        host.run(turn, "hello"),
        Err(RuntimeError::DuplicateTurn { .. })
    ));
    let thread = host.thread();
    host.runtime.acquire_thread(&thread).unwrap();
    assert!(matches!(host.run_turn("hello"), Err(RuntimeError::ConcurrentTurn(_))));
    assert!(matches!(
        host.runtime.recover(&host.events(), &thread),
        Err(RuntimeError::ConcurrentTurn(_))
    ));
    host.runtime.release_thread(&thread);
    assert_eq!(host.run_turn("hello").unwrap().content, "two");
    assert!(matches!(
        host.runtime.begin_turn(
            &Vec::new(),
            &thread,
            &TurnId::from_string("new".to_owned()),
            String::new()
        ),
        Err(RuntimeError::UnknownThread(_))
    ));
}

#[test]
fn parents_bound_the_runtime() {
    let parent = project_capabilities(
        &vec!["echo".to_owned()],
        &CapabilityPolicy::deny_by_default(),
        &PolicyContext::default(),
        None,
    );
    let mut host = Host::new(allow_echo(), echo_script("hello", "fine"));
    let runtime = std::mem::replace(
        &mut host.runtime,
        AgentRuntime::new(ToolRegistry::new(), CapabilityPolicy::deny_by_default()),
    );
    host.runtime = runtime.with_parent_capabilities(parent);
    assert_eq!(host.runtime.capabilities().access("echo"), Access::Deny);
    host.run_turn("echo").unwrap();
    assert!(host.requests[0].tools.is_empty());
    assert_eq!(host.executions, 0);
}

#[test]
fn models_that_fail_fail_the_turn() {
    let mut host = Host::new(allow_echo(), vec![]);
    let error = host.run_turn("hello").unwrap_err();
    assert_eq!(error, RuntimeError::Model(ModelError::new("script exhausted".to_owned(), false)));
    assert!(matches!(host.events().last().unwrap().event, RuntimeEvent::TurnFailed { .. }));
}

#[test]
fn stop_reasons_and_calls_must_agree() {
    let mut odd = text("thinking");
    odd.stop_reason = StopReason::ToolUse;
    let mut host = Host::new(allow_echo(), vec![odd]);
    assert!(matches!(
        host.run_turn("hello"),
        Err(RuntimeError::InvalidModelResponse { .. })
    ));
    let mut late =
        ModelResponse::tool_calls(vec![call("c", "echo", "{\"message\": \"x\"}")]);
    late.stop_reason = StopReason::MaxTokens;
    let mut host = Host::new(allow_echo(), vec![late]);
    assert!(matches!(
        host.run_turn("hello"),
        Err(RuntimeError::InvalidModelResponse { .. })
    ));
    assert_eq!(host.executions, 0);
    assert_eq!(
        host.count(|e| matches!(e, RuntimeEvent::ToolReceiptRecorded { receipt } if receipt.status == ReceiptStatus::Denied)),
        1
    );
}

#[test]
fn registries_refuse_blank_and_taken_names() {
    let mut tools: ToolRegistry<u8> = ToolRegistry::new();
    tools.register(echo_definition(), 1).unwrap();
    assert!(tools.register(echo_definition(), 2).is_err());
    let blank = ToolDefinition::new(" ".to_owned(), String::new(), json("{}"));
    assert!(tools.register(blank, 3).is_err());
    assert_eq!(tools.get("echo"), Some(&1));
    assert_eq!(tools.names(), vec!["echo"]);
    assert_eq!(
        tools.definitions_for(&vec!["other".to_owned(), "echo".to_owned()]).len(),
        1
    );
}

#[test]
fn access_is_restricted_to_the_smaller_one() {
    let all = [Access::Deny, Access::Ask, Access::Allow];
    for (i, a) in all.iter().enumerate() {
        for (j, b) in all.iter().enumerate() {
            assert_eq!(a.restrict(*b), all[i.min(j)]);
        }
    }
    let policy = CapabilityPolicy::deny_by_default().with_default(Access::Ask);
    let projection = project_capabilities(
        &vec!["x".to_owned()],
        &policy,
        &PolicyContext::default(),
        None,
    );
    assert_eq!(projection.access("x"), Access::Ask);
    assert_eq!(projection.access("y"), Access::Deny);
    assert_eq!(projection.visible_names(), vec!["x"]);
    let metadata: Keyed<String> = Keyed::new();
    assert_eq!(metadata.len(), 0);
}

#[test]
fn invalid_calls_fail_the_turn_before_they_are_recorded() {
    for (calls, reason) in [
        (vec![call(" ", "echo", "{}")], "model returned a tool call with an empty id"),
        (vec![call("a", "", "{}")], "tool call `a` has an empty tool name"),
        (
            vec![call("a", "echo", "{}"), call("a", "echo", "{}")],
            "tool call id `a` was reused within the same turn",
        ),
    ] {
        assert_eq!(validate_tool_calls(&calls, &Vec::new()).unwrap_err(), reason);
        let mut host = Host::new(allow_echo(), vec![ModelResponse::tool_calls(calls)]);
        let error = host.run_turn("go").unwrap_err();
        assert!(matches!(error, RuntimeError::InvalidModelResponse { .. }));
        assert_eq!(host.executions, 0);
        assert_eq!(host.count(|e| matches!(e, RuntimeEvent::AssistantMessage { .. })), 0);
        assert_eq!(host.count(|e| matches!(e, RuntimeEvent::TurnFailed { .. })), 1);
    }
    let seen = vec![CallId::from_string("a".to_owned())];
    assert!(validate_tool_calls(&vec![call("a", "echo", "{}")], &seen).is_err());
    assert!(validate_tool_calls(&vec![call("b", "echo", "{}")], &seen).is_ok());
}

#[test]
fn answers_of_a_cancelled_turn_are_recorded_and_their_calls_closed() {
    let mut host = Host::new(allow_echo(), echo_script("hello", "fine"));
    // The first poll opens the round, the second one follows the answer.
    host.cancel_at = Some(2);
    assert!(matches!(host.run_turn("echo"), Err(RuntimeError::Cancelled(_))));
    let events: Vec<RuntimeEvent> = host.events().into_iter().map(|e| e.event).collect();
    let count = events.len();
    assert!(matches!(
        &events[count - 3],
        RuntimeEvent::AssistantMessage { tool_calls, .. } if tool_calls.len() == 1
    ));
    assert!(matches!(
        &events[count - 2],
        RuntimeEvent::ToolReceiptRecorded { receipt }
            if receipt.status == ReceiptStatus::Denied
                && receipt.error.as_deref() == Some("turn was cancelled before tool preparation")
    ));
    assert_eq!(events[count - 1], RuntimeEvent::TurnCancelled);
    assert_eq!(host.executions, 0);
}

#[test]
fn cancelled_turns_do_not_complete_with_the_answer_that_came() {
    let mut host = Host::new(allow_echo(), vec![text("done")]);
    host.cancel_at = Some(2);
    assert!(matches!(host.run_turn("say"), Err(RuntimeError::Cancelled(_))));
    let events: Vec<RuntimeEvent> = host.events().into_iter().map(|e| e.event).collect();
    let count = events.len();
    assert!(matches!(
        &events[count - 2],
        RuntimeEvent::AssistantMessage { content, .. } if content == "done"
    ));
    assert_eq!(events[count - 1], RuntimeEvent::TurnCancelled);

    // A request that failed meanwhile leaves no answer behind.
    let mut host = Host::new(allow_echo(), Vec::new());
    host.cancel_at = Some(2);
    assert!(matches!(host.run_turn("say"), Err(RuntimeError::Cancelled(_))));
    assert_eq!(host.count(|e| matches!(e, RuntimeEvent::AssistantMessage { .. })), 0);
}

#[test]
fn recovery_leaves_other_threads_alone() {
    let mut store = MemoryEventStore::new();
    let stamps = Cell::new(0);
    let one = ThreadId::from_string("one".to_owned());
    let two = ThreadId::from_string("two".to_owned());
    let turn = TurnId::from_string("turn".to_owned());
    for thread in [&one, &two] {
        store.append(stamp(&stamps), thread.clone(), None, RuntimeEvent::ThreadStarted).unwrap();
        store
            .append(stamp(&stamps), thread.clone(), Some(turn.clone()), RuntimeEvent::TurnStarted)
            .unwrap();
    }
    let report = recover_thread(&mut store, &one, &|| stamp(&stamps)).unwrap();
    assert_eq!(report.turns_marked_failed, vec![turn.clone()]);
    assert_eq!(store.load_thread(&one).unwrap().len(), 3);
    assert_eq!(store.load_thread(&two).unwrap().len(), 2);
    let again = recover_thread(&mut store, &one, &|| stamp(&stamps)).unwrap();
    assert!(again.receipts_recorded.is_empty() && again.turns_marked_failed.is_empty());
    assert_eq!(store.load_thread(&one).unwrap().len(), 3);
    assert_eq!(store.load_thread(&two).unwrap().len(), 2);
}

#[test]
fn runtime_closes_cancelled_shell_with_unknown_receipt_before_turn_cancelled() {
    let mut tools: ToolRegistry<Tool> = ToolRegistry::new();
    tools.register(shell().definition(), Tool::Shell).unwrap();
    let response = ModelResponse::tool_calls(vec![
        call(
            "call-1",
            "shell",
            "{\"command\":\"printf before > before; sleep 5 & echo $! > ready; wait; printf after > after\",\"timeout_ms\":30000}",
        ),
        call("call-2", "shell", "{\"command\":\"touch second\"}"),
    ]);
    let policy =
        CapabilityPolicy::deny_by_default().grant("shell".to_owned(), Access::Allow);
    let mut host = Host::with_tools(tools, policy, vec![response]);
    host.execution = Execution::CancelledShell;
    let result = host.run_turn("run");
    assert!(matches!(result, Err(RuntimeError::Cancelled(_))));
    // The first command was running when the turn was cancelled, the second never started.
    assert_eq!(host.commands.0.borrow().len(), 1);
    assert!(host.commands.0.borrow()[0].command.starts_with("printf before > before;"));
    assert_eq!(host.commands.0.borrow()[0].timeout_ms, 30_000);
    let events = host.events();
    let receipts: Vec<&ToolReceipt> = events
        .iter()
        .filter_map(|e| match &e.event {
            RuntimeEvent::ToolReceiptRecorded { receipt } => Some(receipt),
            _ => None,
        })
        .collect();
    assert_eq!(receipts.len(), 2);
    assert_eq!(receipts[0].status, ReceiptStatus::Unknown);
    assert_eq!(receipts[1].status, ReceiptStatus::Denied);
    let place = |wanted: fn(&RuntimeEvent) -> bool| {
        events.iter().position(|e| wanted(&e.event)).unwrap()
    };
    let start = place(|e| matches!(e, RuntimeEvent::ToolExecutionStarted { .. }));
    let receipt = place(|e| matches!(e, RuntimeEvent::ToolReceiptRecorded { .. }));
    let cancelled = place(|e| matches!(e, RuntimeEvent::TurnCancelled));
    assert!(start < receipt && receipt < cancelled);
    // A request that is cancelled before it starts launches no process.
    let request = ProcessRequest {
        command: "touch forbidden".to_owned(),
        working_directory: "/w".to_owned(),
        timeout_ms: 1000,
    };
    assert_eq!(
        LocalProcessRunner::new(1024).command(true, &request).unwrap_err(),
        ProcessError::Cancelled
    );
    let commands = Started(RefCell::new(Vec::new()));
    assert_eq!(run_plainly(&commands, &request, &|| true), Err(ProcessError::Cancelled));
    assert!(commands.0.borrow().is_empty());
}

/// A transport whose request is cancelled once a part of a stream has arrived.
struct CutStream(RefCell<String>);

impl HttpTransport for CutStream {
    fn post_json(&self, request: HttpRequest) -> Result<HttpResponse, TransportError> {
        let mut exchange = CurlExchange::new(request.is_streaming());
        let mut texts: Vec<String> = Vec::new();
        let piece = "data: {\"choices\":[{\"index\":0,\"delta\":{\"content\":\"draft\",\"tool_calls\":[{\"index\":0,\"id\":\"call-a\",\"function\":{\"name\":\"write_file\",\"arguments\":\"{\"}}]},\"finish_reason\":null}]}\n\n";
        exchange.receive(&piece.as_bytes().to_vec(), &mut texts)?;
        self.0.borrow_mut().push_str(&texts.concat());
        let cancelled = HttpControl { cancelled: true, abandoned: false };
        check_progress(&cancelled, 0, request.timeout_seconds)?;
        panic!("the request was not stopped");
    }
}

struct NoCounter;

impl RequestTokenCounter for NoCounter {
    fn count_input_tokens(&self, _body: &Json) -> Result<u64, ModelError> {
        Ok(0)
    }
}

#[test]
fn cancellation_with_partial_tool_stream_persists_cancelled_without_assistant() {
    let adapter = OpenAiCompatibleAdapter::new(OpenAiConfig::new(
        "http://example.test".to_owned(),
        "fixture".to_owned(),
    ))
    .with_streaming(true);
    let asked = ModelRequest {
        thread_id: ThreadId::from_string("thread".to_owned()),
        turn_id: TurnId::from_string("turn-1".to_owned()),
        iteration: 0,
        context: CompiledContext { prompt: vec![], messages: vec![] },
        tools: vec![],
    };
    let transport = CutStream(RefCell::new(String::new()));
    let failure = adapter.complete_blocking(&asked, &transport, &NoCounter).unwrap_err();
    assert_eq!(*transport.0.borrow(), "draft");

    let tools: ToolRegistry<Tool> = ToolRegistry::new();
    let mut host = Host::with_tools(tools, CapabilityPolicy::deny_by_default(), Vec::new());
    host.failure = failure.message;
    host.cancel_at = Some(2);
    assert!(matches!(host.run_turn("test"), Err(RuntimeError::Cancelled(_))));
    let events = host.events();
    assert!(events.iter().any(|e| matches!(e.event, RuntimeEvent::TurnCancelled)));
    assert!(!events.iter().any(|e| matches!(
        e.event,
        RuntimeEvent::AssistantMessage { .. }
            | RuntimeEvent::ToolExecutionStarted { .. }
            | RuntimeEvent::TurnFailed { .. }
    )));
}
