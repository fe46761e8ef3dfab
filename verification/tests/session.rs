use std::cell::RefCell;

use nausicaa::context::{CompiledContext, PromptLayer};
use nausicaa::event::{EventEnvelope, RuntimeEvent};
use nausicaa::hook::{Hook, HookContext, HookSet};
use nausicaa::id::{EventId, ThreadId, TurnId};
use nausicaa::model::{
    ModelControl, ModelProgress, ModelProgressEvent, ModelProgressObserver, ModelRequest,
};
use nausicaa::policy::{Access, CapabilityProjection, PolicyContext, ToolPolicy};
use nausicaa::protocol::TranscriptMessage;
use nausicaa::runtime::recorded_since;
use nausicaa::session::{
    demo_response, session_context, session_policy, session_title, wants_help,
};

fn texts(words: &[&str]) -> Vec<String> {
    words.iter().map(|word| (*word).to_owned()).collect()
}

fn request(messages: Vec<TranscriptMessage>) -> ModelRequest {
    ModelRequest {
        thread_id: ThreadId::from_string("thread".to_owned()),
        turn_id: TurnId::from_string("turn".to_owned()),
        iteration: 3,
        context: CompiledContext { prompt: Vec::new(), messages },
        tools: Vec::new(),
    }
}

#[test]
fn help_is_asked_for_by_either_name() {
    assert!(wants_help(&texts(&["program", "--help"])));
    assert!(wants_help(&texts(&["program", "--stream", "-h"])));
    assert!(!wants_help(&texts(&["program", "--helpful"])));
    assert!(!wants_help(&Vec::new()));
}

#[test]
fn demo_model_echoes_the_last_user_message() {
    let response = demo_response(&request(vec![
        TranscriptMessage::User { content: "first".to_owned() },
        TranscriptMessage::User { content: "second".to_owned() },
    ]));
    assert_eq!(response.content, "demo response: second");
    assert!(response.tool_calls.is_empty());
    assert_eq!(demo_response(&request(Vec::new())).content, "demo response: ");
}

#[test]
fn sessions_ask_before_changes() {
    let policy = session_policy();
    let context = PolicyContext::default();
    assert_eq!(policy.access("read_file", &context), Access::Allow);
    assert_eq!(policy.access("write_file", &context), Access::Ask);
    assert_eq!(policy.access("shell", &context), Access::Ask);
    assert_eq!(policy.access("network", &context), Access::Deny);
    assert_eq!(CapabilityProjection::default().access("read_file"), Access::Deny);
}

#[test]
fn sessions_work_in_one_directory() {
    let config = session_context("/work", texts(&["/work/skills"]), 7);
    assert_eq!(config.project_root, "/work");
    assert_eq!(config.current_directory, "/work");
    assert_eq!(config.skill_roots, texts(&["/work/skills"]));
    assert_eq!(config.max_transcript_groups, Some(7));
    assert_eq!(config.max_characters, None);
    assert_eq!(config.stable_segments.len(), 1);
    assert_eq!(config.stable_segments[0].layer, PromptLayer::Stable);
    assert_eq!(config.stable_segments[0].name, "agent-harness");
    assert!(config.volatile_segments.is_empty());
    assert_eq!(session_title("/work"), "Agent Harness — /work");
}

struct Told(RefCell<Vec<ModelProgressEvent>>);

impl ModelProgressObserver for Told {
    fn on_progress(&self, event: &ModelProgressEvent) {
        self.0.borrow_mut().push(event.clone());
    }
}

#[test]
fn progress_names_its_request() {
    let control = ModelControl { observer: Some(Told(RefCell::new(Vec::new()))) };
    control.notify(
        &request(Vec::new()),
        ModelProgress::TextDelta { text: "draft".to_owned() },
    );
    let told = control.observer.unwrap().0.into_inner();
    assert_eq!(told.len(), 1);
    assert_eq!(told[0].thread_id.as_str(), "thread");
    assert_eq!(told[0].turn_id.as_str(), "turn");
    assert_eq!(told[0].iteration, 3);
    assert_eq!(told[0].progress, ModelProgress::TextDelta { text: "draft".to_owned() });

    let silent: ModelControl<Told> = ModelControl { observer: None };
    silent.notify(&request(Vec::new()), ModelProgress::Started);
}

fn envelope(sequence: u64) -> EventEnvelope {
    EventEnvelope {
        id: EventId::from_string(format!("event-{sequence}")),
        thread_id: ThreadId::from_string("thread".to_owned()),
        turn_id: None,
        sequence,
        at_unix_ms: 0,
        event: RuntimeEvent::ThreadStarted,
    }
}

#[test]
fn observers_are_told_of_what_was_recorded_since() {
    let before = vec![envelope(0), envelope(4)];
    let after = vec![envelope(0), envelope(4), envelope(5), envelope(9)];
    let news: Vec<u64> = recorded_since(&before, &after).iter().map(|e| e.sequence).collect();
    assert_eq!(news, vec![5, 9]);
    assert_eq!(recorded_since(&Vec::new(), &after).len(), 4);
    assert!(recorded_since(&after, &after).is_empty());
}

struct Named(&'static str, bool);

impl Hook for Named {
    fn name(&self) -> String {
        self.0.to_owned()
    }

    fn before_model(&self, _: &HookContext, _: &CompiledContext) -> Result<(), String> {
        if self.1 {
            Ok(())
        } else {
            Err(format!("{} objects", self.0))
        }
    }
}

#[test]
fn first_refusing_hook_is_named() {
    let context = HookContext {
        thread_id: ThreadId::from_string("thread".to_owned()),
        turn_id: TurnId::from_string("turn".to_owned()),
        iteration: 0,
    };
    let compiled = CompiledContext { prompt: Vec::new(), messages: Vec::new() };
    let hooks = HookSet::new()
        .with(Named("first", true))
        .with(Named("second", false))
        .with(Named("third", false));
    let error = hooks.before_model(&context, &compiled).unwrap_err();
    assert_eq!(error.to_text(), "hook `second` rejected before_model: second objects");
    let mut calm = HookSet::new();
    calm.push(Named("only", true));
    assert!(calm.before_model(&context, &compiled).is_ok());
}
