use std::cell::RefCell;
use std::collections::HashMap;

use nausicaa::context::{ContextError, ContextInput, LayeredContextCompiler};
use nausicaa::id::{CallId, ThreadId, TurnId};
use nausicaa::json::{parse, set_member, Json};
use nausicaa::keyed::Keyed;
use nausicaa::output::{
    component, ExternalOutputCompiler, OutputArchive, ReadOutputTool, RetainedOutput, Retention,
};
use nausicaa::protocol::{
    CanonicalAction, EffectKind, PreparedToolCall, RetrySafety, ToolCall, ToolReceipt,
    TranscriptMessage,
};
use nausicaa::tool::{ToolError, ToolExecutionContext};

fn json(text: &str) -> Json {
    parse(text).unwrap()
}

fn thread(id: &str) -> ThreadId {
    ThreadId::from_string(id.to_owned())
}

/// An archive whose files are held in memory.
struct Shelf {
    archive: OutputArchive,
    files: RefCell<HashMap<String, Vec<u8>>>,
}

impl Shelf {
    fn new(limit: usize) -> Self {
        Shelf {
            archive: OutputArchive::new("root".to_owned(), limit).unwrap(),
            files: RefCell::new(HashMap::new()),
        }
    }

    fn retain(&self, thread: &ThreadId, call: &str, bytes: &[u8]) -> Result<(), ContextError> {
        let path = self.archive.paths(thread, call)?.1;
        let existing = self.files.borrow().get(&path).cloned();
        let bytes = bytes.to_vec();
        match self.archive.retain(thread, call, &bytes, existing.as_ref())? {
            Retention::Publish => {
                self.files.borrow_mut().insert(path, bytes);
            }
            Retention::Keep => {}
        }
        Ok(())
    }

    fn read_page(
        &self,
        thread: &ThreadId,
        call: &str,
        offset: u64,
        limit: usize,
    ) -> Result<Json, ContextError> {
        let path = self.archive.paths(thread, call)?.1;
        let files = self.files.borrow();
        let snapshot = files
            .get(&path)
            .ok_or_else(|| ContextError::Read("no such snapshot".to_owned()))?;
        self.archive.check_snapshot(true, snapshot.len() as u64)?;
        self.archive.read_page(call, snapshot, offset, limit)
    }
}

fn text(page: &Json) -> String {
    page.get("text").unwrap().as_text().unwrap().clone()
}

fn receipt(call: &ToolCall, value: Json) -> ToolReceipt {
    let prepared = PreparedToolCall {
        call_id: call.id.clone(),
        action: CanonicalAction::new(
            call.name.clone(),
            json("{}"),
            EffectKind::ReadOnly,
            RetrySafety::Safe,
        ),
    };
    ToolReceipt::succeeded(prepared, value)
}

#[test]
fn large_outputs_are_retained_once_and_pages_reconstruct_exact_json() {
    let shelf = Shelf::new(100_000);
    let compiler = ExternalOutputCompiler::new(256);
    let inner = LayeredContextCompiler::new().with_max_characters(1000);
    let thread = thread("thread");
    let call = ToolCall::new(
        CallId::from_string("call".to_owned()),
        "large_output".to_owned(),
        json("{}"),
    );
    let value = Json::Text("€猫🙂".repeat(1000));
    let receipt = receipt(&call, value.clone());
    let transcript = vec![
        TranscriptMessage::Assistant { content: String::new(), tool_calls: vec![call.clone()] },
        TranscriptMessage::Tool { receipt: receipt.clone() },
    ];
    let input = || ContextInput {
        thread_id: thread.clone(),
        turn_id: TurnId::from_string("turn".to_owned()),
        transcript: transcript.clone(),
    };
    let keep = |output: RetainedOutput| {
        shelf.retain(&thread, output.call_id.as_str(), &output.bytes)
    };
    let compiled = compiler.compile(&inner, &keep, input()).unwrap();
    assert_eq!(transcript[1], TranscriptMessage::Tool { receipt: receipt.clone() });
    assert_eq!(compiled.messages[0], transcript[0]);
    let TranscriptMessage::Tool { receipt: view } = &compiled.messages[1] else {
        panic!()
    };
    assert_eq!(view.call_id, receipt.call_id);
    assert_eq!(view.status, receipt.status);
    assert_eq!(view.action, receipt.action);
    let reference = view.output.as_ref().unwrap().get("externalized_output").unwrap();
    assert_eq!(reference.get("call_id").unwrap().as_text().unwrap(), call.id.as_str());
    assert_eq!(compiler.compile(&inner, &keep, input()).unwrap(), compiled);
    let mut result = String::new();
    let mut offset = 0;
    loop {
        let page = shelf.read_page(&thread, call.id.as_str(), offset, 7).unwrap();
        let part = text(&page);
        assert!(part.len() <= 7);
        result.push_str(&part);
        let next = page.get("next_offset").unwrap().as_unsigned().unwrap();
        if page.get("eof") == Some(&Json::Bool(true)) {
            break;
        }
        assert!(next > offset);
        offset = next;
    }
    assert_eq!(json(&result), value);
    assert!(shelf.read_page(&thread, call.id.as_str(), 2, 7).is_err());
    let other = ThreadId::from_string("other".to_owned());
    assert!(shelf.read_page(&other, call.id.as_str(), 0, 7).is_err());
}

#[test]
fn conflicts_and_invalid_paths_fail_without_overwrite() {
    let shelf = Shelf::new(20);
    let thread = thread("thread");
    shelf.retain(&thread, "../../outside", b"123").unwrap();
    assert_eq!(text(&shelf.read_page(&thread, "../../outside", 0, 4).unwrap()), "123");
    assert!(shelf.retain(&thread, "../../outside", b"456").is_err());
    assert_eq!(text(&shelf.read_page(&thread, "../../outside", 0, 4).unwrap()), "123");
    assert!(shelf.retain(&thread, "large", &[0; 21]).is_err());
    assert!(shelf.retain(&thread, &"x".repeat(97), b"0").is_err());
    assert!(shelf.read_page(&thread, "../../outside", 4, 4).is_err());
    assert!(shelf.read_page(&thread, "../../outside", 0, 4097).is_err());
}

#[test]
fn symlinked_archive_files_are_rejected() {
    let shelf = Shelf::new(20);
    assert!(shelf.archive.check_snapshot(false, 3).is_err());
    assert!(shelf.archive.check_snapshot(true, 21).is_err());
    assert!(shelf.archive.check_snapshot(true, 20).is_ok());
}

fn context(thread_id: ThreadId) -> ToolExecutionContext {
    ToolExecutionContext {
        thread_id,
        turn_id: TurnId::from_string("turn".to_owned()),
        workspace: None,
        metadata: Keyed::new(),
    }
}

fn execute(
    shelf: &Shelf,
    prepared: &PreparedToolCall,
    context: &ToolExecutionContext,
) -> Result<Json, ToolError> {
    let tool = ReadOutputTool;
    let request = tool.request(prepared, context, false)?;
    let page =
        shelf.read_page(&context.thread_id, &request.call_id, request.offset, request.limit);
    Ok(tool.output(page)?.value)
}

#[test]
fn retrieval_executes_prepared_page_and_cannot_change_thread() {
    let shelf = Shelf::new(100);
    let home = thread("thread");
    shelf.retain(&home, "original", b"123456789").unwrap();
    let tool = ReadOutputTool;
    let ctx = context(home);
    let mut call = ToolCall::new(
        CallId::from_string("call".to_owned()),
        "read_output".to_owned(),
        json("{\"call_id\": \"original\", \"offset\": 2, \"limit\": 4}"),
    );
    let prepared = tool.prepare(&call, &ctx).unwrap();
    if let Json::Object(members) = &mut call.arguments {
        set_member(members, "offset", Json::Unsigned(0));
    }
    let output = execute(&shelf, &prepared, &ctx).unwrap();
    assert_eq!(text(&output), "3456");
    assert!(execute(&shelf, &prepared, &context(thread("other"))).is_err());
    if let Json::Object(members) = &mut call.arguments {
        set_member(members, "thread_id", json("\"other\""));
    }
    assert!(tool.prepare(&call, &context(thread("other"))).is_err());
}

#[test]
fn pages_need_sound_arguments() {
    let tool = ReadOutputTool;
    let ctx = context(thread("thread"));
    for arguments in [
        "[]",
        "{}",
        "{\"call_id\": 1}",
        "{\"call_id\": \"\"}",
        "{\"call_id\": \"a\", \"offset\": -1}",
        "{\"call_id\": \"a\", \"limit\": 3}",
        "{\"call_id\": \"a\", \"limit\": 4097}",
    ] {
        let call = ToolCall::new(
            CallId::from_string("call".to_owned()),
            "read_output".to_owned(),
            json(arguments),
        );
        assert!(
            matches!(tool.prepare(&call, &ctx), Err(ToolError::InvalidArguments(_))),
            "{arguments}"
        );
    }
    let call = ToolCall::new(
        CallId::from_string("call".to_owned()),
        "read_output".to_owned(),
        json("{\"call_id\": \"a\"}"),
    );
    let prepared = tool.prepare(&call, &ctx).unwrap();
    assert_eq!(tool.request(&prepared, &ctx, true).unwrap_err(), ToolError::Cancelled);
    assert_eq!(tool.definition().name, "read_output");
}

#[test]
fn file_names_are_hexadecimal_and_differ() {
    assert_eq!(component("a/é").unwrap(), "612fc3a9");
    assert_ne!(component("ab").unwrap(), component("ba").unwrap());
    assert!(component("").is_err());
    assert!(component(&"x".repeat(96)).is_ok());
}

#[test]
fn outputs_that_cannot_be_retained_stop_the_compilation() {
    let call = ToolCall::new(
        CallId::from_string("call".to_owned()),
        "large_output".to_owned(),
        json("{}"),
    );
    let message = TranscriptMessage::Tool {
        receipt: receipt(&call, Json::Text("x".repeat(100))),
    };
    let failing = |_: RetainedOutput| Err(ContextError::Read("disk full".to_owned()));
    let input = ContextInput {
        thread_id: thread("thread"),
        turn_id: TurnId::from_string("turn".to_owned()),
        transcript: vec![message],
    };
    assert_eq!(
        ExternalOutputCompiler::new(10).compile(&LayeredContextCompiler::new(), &failing, input),
        Err(ContextError::Read("disk full".to_owned()))
    );
}

#[test]
fn pages_that_were_asked_for_stay_inline() {
    let call = ToolCall::new(
        CallId::from_string("call".to_owned()),
        "read_output".to_owned(),
        json("{}"),
    );
    let message = TranscriptMessage::Tool {
        receipt: receipt(&call, Json::Text("x".repeat(100))),
    };
    let (kept, outputs) = ExternalOutputCompiler::new(10).externalize(vec![message.clone()]);
    assert_eq!(kept, vec![message]);
    assert!(outputs.is_empty());
}

#[test]
fn pages_of_changing_sizes_reconstruct_the_text() {
    let shelf = Shelf::new(100_000);
    let thread = thread("thread");
    let whole = "a€猫🙂\u{7ff}".repeat(50);
    shelf.retain(&thread, "call", whole.as_bytes()).unwrap();
    let mut shown = String::new();
    let mut offset = 0;
    for limit in [4, 5, 4096, 7].into_iter().chain([4, 9, 6].into_iter().cycle()) {
        let page = shelf.read_page(&thread, "call", offset, limit).unwrap();
        shown.push_str(&text(&page));
        offset = page.get("next_offset").unwrap().as_unsigned().unwrap();
        assert_eq!(shown, whole[..offset as usize]);
        if offset as usize == whole.len() {
            break;
        }
    }
    assert_eq!(shown, whole);
    let mut shown = String::new();
    let mut offset = 0;
    for limit in [4, 9, 6, 13].into_iter().cycle() {
        let page = shelf.read_page(&thread, "call", offset, limit).unwrap();
        shown.push_str(&text(&page));
        offset = page.get("next_offset").unwrap().as_unsigned().unwrap();
        if page.get("eof") == Some(&Json::Bool(true)) {
            break;
        }
    }
    assert_eq!(shown, whole);
}
