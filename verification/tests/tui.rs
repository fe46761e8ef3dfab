use nausicaa::approval::{ApprovalDecision, ApprovalRequest};
use nausicaa::event::RuntimeEvent;
use nausicaa::id::{CallId, ThreadId, TurnId};
use nausicaa::json::parse;
use nausicaa::model::{StopReason, TokenUsage};
use nausicaa::protocol::{CanonicalAction, EffectKind, RetrySafety, ToolCall, ToolReceipt};
use nausicaa::tui::{
    format_event, layout, wrap_line, Key, TuiConfig, TuiError, UiAction, UiState,
};

fn state() -> UiState {
    UiState::new(ThreadId::from_string("thread".to_owned()))
}

fn enter(state: &mut UiState, text: &str) -> UiAction {
    for c in text.chars() {
        assert!(matches!(state.handle_key(Key::Char(c), false, 100), UiAction::Nothing));
    }
    state.handle_key(Key::Enter, false, 100)
}

fn request(tool: &str) -> ApprovalRequest {
    ApprovalRequest {
        thread_id: ThreadId::from_string("thread".to_owned()),
        turn_id: TurnId::from_string("turn".to_owned()),
        call_id: CallId::from_string("call".to_owned()),
        action: CanonicalAction::new(
            tool.to_owned(),
            parse("{ \"path\": \"/workspace/file\" }").unwrap(),
            EffectKind::WorkspaceWrite,
            RetrySafety::Idempotent,
        ),
        reason: "test".to_owned(),
    }
}

#[test]
fn wrapping_is_deterministic() {
    assert_eq!(wrap_line("abcdef", 3), vec!["abc", "def"]);
    assert_eq!(wrap_line("a\nb", 3), vec!["a", "b"]);
}

#[test]
fn wrapping_handles_the_edges() {
    assert_eq!(wrap_line("abc", 0), vec![""]);
    assert_eq!(wrap_line("", 3), vec![""]);
    assert_eq!(wrap_line("abc\n", 3), vec!["abc", ""]);
    assert_eq!(wrap_line("abcdefg\n\nhi", 3), vec!["abc", "def", "g", "", "hi"]);
    assert_eq!(wrap_line("äöüß", 3), vec!["äöü", "ß"]);
}

#[test]
fn approval_channel_returns_the_exact_action() {
    let mut state = state();
    let prompt = request("write_file");
    let expected = prompt.action.clone();
    state.take_approval(prompt);
    match state.handle_key(Key::Char('y'), false, 100) {
        UiAction::Decide(decision) => {
            assert_eq!(decision, ApprovalDecision::Approved { action: expected });
        }
        other => panic!("{other:?}"),
    }
    assert_eq!(state.logs.last().unwrap(), "approved: write_file");
}

#[test]
fn approvals_wait_in_order_and_other_keys_do_nothing() {
    let mut state = state();
    state.take_approval(request("first"));
    state.take_approval(request("second"));
    assert!(matches!(state.handle_key(Key::Char('x'), false, 100), UiAction::Nothing));
    assert_eq!(state.input, "");
    assert!(matches!(
        state.handle_key(Key::Esc, false, 100),
        UiAction::Decide(ApprovalDecision::Denied { .. })
    ));
    assert_eq!(state.logs.last().unwrap(), "denied: first");
    assert_eq!(state.current_approval.as_ref().unwrap().action.tool_name, "second");
    state.take_approval(request("third"));
    let denied = state.deny_pending();
    assert_eq!(denied.len(), 2);
    assert_eq!(denied[0], ApprovalDecision::Denied { reason: "denied in TUI".to_owned() });
    assert!(state.current_approval.is_none());
}

#[test]
fn one_turn_runs_at_a_time() {
    let mut state = state();
    match enter(&mut state, "  hello  ") {
        UiAction::Start(input) => assert_eq!(input, "hello"),
        other => panic!("{other:?}"),
    }
    assert_eq!(state.logs.last().unwrap(), "you: hello");
    assert!(matches!(enter(&mut state, "again"), UiAction::Nothing));
    assert_eq!(state.logs.last().unwrap(), "a turn is already running");
    assert!(matches!(enter(&mut state, "/cancel"), UiAction::Cancel));
    assert_eq!(state.logs.last().unwrap(), "cancellation requested");
    state.end_turn(Ok("bye".to_owned()));
    assert_eq!(state.logs.last().unwrap(), "turn complete: bye");
    let count = state.logs.len();
    assert!(matches!(enter(&mut state, "/cancel"), UiAction::Nothing));
    assert_eq!(state.logs.len(), count);
    state.end_turn(Err("broken".to_owned()));
    assert_eq!(state.logs.last().unwrap(), "turn failed: broken");
    assert!(!state.lose_turn());
}

#[test]
fn keys_edit_the_input_and_leave() {
    let mut state = state();
    assert!(matches!(state.handle_key(Key::Backspace, false, 100), UiAction::Nothing));
    state.handle_key(Key::Char('a'), false, 100);
    state.handle_key(Key::Char('ß'), false, 100);
    state.handle_key(Key::Backspace, false, 100);
    assert_eq!(state.input, "a");
    assert!(matches!(state.handle_key(Key::Char('c'), true, 100), UiAction::Quit));
    assert!(matches!(state.handle_key(Key::Esc, false, 100), UiAction::Quit));
    state.input = String::new();
    assert!(matches!(enter(&mut state, "/quit"), UiAction::Quit));
    assert!(matches!(enter(&mut state, "/exit"), UiAction::Quit));
    assert!(matches!(enter(&mut state, "   "), UiAction::Nothing));
}

#[test]
fn logs_are_trimmed_from_the_front() {
    let mut state = state();
    for n in 0..5 {
        state.push_log(format!("{n}"));
    }
    state.handle_key(Key::Other, false, 2);
    assert_eq!(state.logs, vec!["3", "4"]);
}

#[test]
fn events_are_shown_as_lines() {
    let call = ToolCall::new(
        CallId::from_string("c".to_owned()),
        "read".to_owned(),
        parse("{}").unwrap(),
    );
    let message = |content: &str, tool_calls: Vec<ToolCall>| RuntimeEvent::AssistantMessage {
        content: content.to_owned(),
        tool_calls,
        stop_reason: StopReason::EndTurn,
        usage: TokenUsage::default(),
    };
    assert_eq!(format_event(&message("hi", vec![])).unwrap(), "assistant: hi");
    assert_eq!(
        format_event(&message("", vec![call.clone(), call.clone()])).unwrap(),
        "assistant requested: read, read"
    );
    assert!(format_event(&message("", vec![])).is_none());
    assert_eq!(format_event(&RuntimeEvent::TurnCancelled).unwrap(), "turn cancelled");
    assert_eq!(
        format_event(&RuntimeEvent::TurnFailed { error: "x".to_owned() }).unwrap(),
        "turn failed: x"
    );
    assert!(format_event(&RuntimeEvent::TurnStarted).is_none());
    let receipt = ToolReceipt::malformed(&call, "bad".to_owned());
    assert_eq!(
        format_event(&RuntimeEvent::ToolReceiptRecorded { receipt }).unwrap(),
        "tool read [failed]: bad"
    );
    let mut state = state();
    assert!(state.take_events(&vec![RuntimeEvent::TurnStarted, RuntimeEvent::TurnCancelled], 1));
    assert_eq!(state.logs, vec!["turn cancelled"]);
    assert!(!state.take_events(&vec![RuntimeEvent::TurnStarted], 1));
}

#[test]
fn the_screen_shows_the_last_lines() {
    let mut state = state();
    state.push_log("x".repeat(20));
    let config = TuiConfig::default();
    let screen = layout(&state, &config, 5, 6);
    assert_eq!(screen.header, "Agent Harness  [thread]");
    assert_eq!(screen.lines, vec!["x".repeat(18), "xx".to_owned()]);
    assert_eq!(screen.status, "status: ready");
    assert_eq!((screen.status_row, screen.prompt_row), (4, 5));
    assert_eq!(screen.prompt, "> ");
    assert!(screen.approval.is_none());
    state.take_approval(request("write_file"));
    state.running = true;
    let screen = layout(&state, &config, 40, 1);
    assert!(screen.lines.is_empty());
    assert_eq!(screen.status, "status: running");
    assert_eq!((screen.status_row, screen.prompt_row), (0, 0));
    assert_eq!(
        screen.approval,
        Some(("write_file".to_owned(), "{\"path\":\"/workspace/file\"}".to_owned()))
    );
    assert_eq!((config.refresh_interval_ms, config.maximum_log_entries), (50, 2000));
    assert_eq!(TuiError::Io("x".to_owned()).to_text(), "terminal I/O error: x");
}
