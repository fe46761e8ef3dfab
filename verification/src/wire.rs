//! The JSON texts of protocol values, with their members in a fixed order.

use vstd::prelude::*;
use vstd::string::*;

use crate::datum::{lemma_views_push, views};
use crate::json::{json_text, Json, JsonView};
use crate::protocol::{
    CanonicalAction, CanonicalActionView, EffectKind, ReceiptStatus, RetrySafety, ToolCall,
    ToolCallView, ToolReceipt, ToolReceiptView, TranscriptMessage, TranscriptMessageView,
};
use crate::text::{join, join_of};

verus! {

/// The JSON text of a text.
pub open spec fn quoted(text: Seq<char>) -> Seq<char> {
    json_text(JsonView::Text(text))
}

/// One member of an object. The key needs no escaping.
pub open spec fn member_text(key: Seq<char>, value: Seq<char>) -> Seq<char> {
    "\""@ + key + "\":"@ + value
}

/// An object with these members.
pub open spec fn object_text(members: Seq<Seq<char>>) -> Seq<char> {
    "{"@ + join_of(members, ","@) + "}"@
}

/// An array with these items.
pub open spec fn array_text(items: Seq<Seq<char>>) -> Seq<char> {
    "["@ + join_of(items, ","@) + "]"@
}

pub(crate) fn quote(text: &str) -> (json: String)
    ensures
        json@ == quoted(text@),
{
    Json::Text(text.to_owned()).to_text()
}

pub(crate) fn write_member(key: &str, value: &str) -> (text: String)
    ensures
        text@ == member_text(key@, value@),
{
    "\"".to_owned().concat(key).concat("\":").concat(value)
}

pub(crate) fn write_object(members: &Vec<String>) -> (text: String)
    ensures
        text@ == object_text(views(members@)),
{
    "{".to_owned().concat(join(members, ",").as_str()).concat("}")
}

pub(crate) fn write_array(items: &Vec<String>) -> (text: String)
    ensures
        text@ == array_text(views(items@)),
{
    "[".to_owned().concat(join(items, ",").as_str()).concat("]")
}

/// The name of an effect on the wire.
pub open spec fn effect_name(effect: EffectKind) -> Seq<char> {
    match effect {
        EffectKind::ReadOnly => "read_only"@,
        EffectKind::WorkspaceWrite => "workspace_write"@,
        EffectKind::ExternalSideEffect => "external_side_effect"@,
    }
}

/// The name of a retry safety on the wire.
pub open spec fn retry_name(retry_safety: RetrySafety) -> Seq<char> {
    match retry_safety {
        RetrySafety::Safe => "safe"@,
        RetrySafety::Idempotent => "idempotent"@,
        RetrySafety::Unsafe => "unsafe"@,
    }
}

/// The name of a status on the wire.
pub open spec fn status_name(status: ReceiptStatus) -> Seq<char> {
    match status {
        ReceiptStatus::Succeeded => "succeeded"@,
        ReceiptStatus::Failed => "failed"@,
        ReceiptStatus::Denied => "denied"@,
        ReceiptStatus::Unknown => "unknown"@,
    }
}

impl EffectKind {
    pub fn name(&self) -> (name: &'static str)
        ensures
            name@ == effect_name(*self),
    {
        match self {
            EffectKind::ReadOnly => "read_only",
            EffectKind::WorkspaceWrite => "workspace_write",
            EffectKind::ExternalSideEffect => "external_side_effect",
        }
    }
}

impl RetrySafety {
    pub fn name(&self) -> (name: &'static str)
        ensures
            name@ == retry_name(*self),
    {
        match self {
            RetrySafety::Safe => "safe",
            RetrySafety::Idempotent => "idempotent",
            RetrySafety::Unsafe => "unsafe",
        }
    }
}

impl ReceiptStatus {
    pub fn name(&self) -> (name: &'static str)
        ensures
            name@ == status_name(*self),
    {
        match self {
            ReceiptStatus::Succeeded => "succeeded",
            ReceiptStatus::Failed => "failed",
            ReceiptStatus::Denied => "denied",
            ReceiptStatus::Unknown => "unknown",
        }
    }
}

/// The JSON text of a tool call.
pub open spec fn call_text(call: ToolCallView) -> Seq<char> {
    object_text(
        seq![
            member_text("id"@, quoted(call.id)),
            member_text("name"@, quoted(call.name)),
            member_text("arguments"@, json_text(call.arguments)),
        ],
    )
}

/// The JSON text of an action. A scope is written if there is one.
pub open spec fn action_text(action: CanonicalActionView) -> Seq<char> {
    let members = seq![
        member_text("tool_name"@, quoted(action.tool_name)),
        member_text("arguments"@, json_text(action.arguments)),
        member_text("effect"@, quoted(effect_name(action.effect))),
        member_text("retry_safety"@, quoted(retry_name(action.retry_safety))),
    ];
    object_text(
        match action.scope {
            Some(scope) => members.push(member_text("scope"@, quoted(scope))),
            None => members,
        },
    )
}

/// The members of a receipt. Action, output and error are written if there are any.
pub open spec fn receipt_members(receipt: ToolReceiptView) -> Seq<Seq<char>> {
    let head = seq![
        member_text("call_id"@, quoted(receipt.call_id)),
        member_text("tool_name"@, quoted(receipt.tool_name)),
        member_text("status"@, quoted(status_name(receipt.status))),
    ];
    let acted = match receipt.action {
        Some(action) => head.push(member_text("action"@, action_text(action))),
        None => head,
    };
    let put_out = match receipt.output {
        Some(output) => acted.push(member_text("output"@, json_text(output))),
        None => acted,
    };
    match receipt.error {
        Some(error) => put_out.push(member_text("error"@, quoted(error))),
        None => put_out,
    }
}

/// The JSON text of a receipt.
pub open spec fn receipt_text(receipt: ToolReceiptView) -> Seq<char> {
    object_text(receipt_members(receipt))
}

/// The JSON text of a transcript message.
pub open spec fn message_text(message: TranscriptMessageView) -> Seq<char> {
    match message {
        TranscriptMessageView::User { content } => object_text(
            seq![
                member_text("role"@, quoted("user"@)),
                member_text("content"@, quoted(content)),
            ],
        ),
        TranscriptMessageView::Assistant { content, tool_calls } => object_text(
            seq![
                member_text("role"@, quoted("assistant"@)),
                member_text("content"@, quoted(content)),
                member_text(
                    "tool_calls"@,
                    array_text(tool_calls.map_values(|call: ToolCallView| call_text(call))),
                ),
            ],
        ),
        TranscriptMessageView::Tool { receipt } => object_text(
            seq![
                member_text("role"@, quoted("tool"@)),
                member_text("receipt"@, receipt_text(receipt)),
            ],
        ),
    }
}

fn push_member(members: &mut Vec<String>, key: &str, value: &str)
    ensures
        views(final(members)@) == views(old(members)@).push(member_text(key@, value@)),
{
    let member = write_member(key, value);
    proof {
        lemma_views_push(members@, member);
    }
    members.push(member);
}

fn no_texts() -> (texts: Vec<String>)
    ensures
        views(texts@) == Seq::<Seq<char>>::empty(),
{
    let texts: Vec<String> = Vec::new();
    assert(views(texts@) =~= Seq::<Seq<char>>::empty());
    texts
}

/// Writes a tool call.
pub fn write_call(call: &ToolCall) -> (text: String)
    ensures
        text@ == call_text(call@),
{
    let mut members = no_texts();
    push_member(&mut members, "id", quote(call.id.as_str()).as_str());
    push_member(&mut members, "name", quote(call.name.as_str()).as_str());
    push_member(&mut members, "arguments", call.arguments.to_text().as_str());
    proof {
        assert(views(members@) =~= seq![
            member_text("id"@, quoted(call@.id)),
            member_text("name"@, quoted(call@.name)),
            member_text("arguments"@, json_text(call@.arguments)),
        ]);
    }
    write_object(&members)
}

/// Writes an action.
pub fn write_action(action: &CanonicalAction) -> (text: String)
    ensures
        text@ == action_text(action@),
{
    let mut members = no_texts();
    push_member(&mut members, "tool_name", quote(action.tool_name.as_str()).as_str());
    push_member(&mut members, "arguments", action.arguments.to_text().as_str());
    push_member(&mut members, "effect", quote(action.effect.name()).as_str());
    push_member(&mut members, "retry_safety", quote(action.retry_safety.name()).as_str());
    proof {
        assert(views(members@) =~= seq![
            member_text("tool_name"@, quoted(action@.tool_name)),
            member_text("arguments"@, json_text(action@.arguments)),
            member_text("effect"@, quoted(effect_name(action@.effect))),
            member_text("retry_safety"@, quoted(retry_name(action@.retry_safety))),
        ]);
    }
    match &action.scope {
        Some(scope) => {
            push_member(&mut members, "scope", quote(scope.as_str()).as_str());
        },
        None => {},
    }
    write_object(&members)
}

/// Writes a receipt.
pub fn write_receipt(receipt: &ToolReceipt) -> (text: String)
    ensures
        text@ == receipt_text(receipt@),
{
    let mut members = no_texts();
    push_member(&mut members, "call_id", quote(receipt.call_id.as_str()).as_str());
    push_member(&mut members, "tool_name", quote(receipt.tool_name.as_str()).as_str());
    push_member(&mut members, "status", quote(receipt.status.name()).as_str());
    proof {
        assert(views(members@) =~= seq![
            member_text("call_id"@, quoted(receipt@.call_id)),
            member_text("tool_name"@, quoted(receipt@.tool_name)),
            member_text("status"@, quoted(status_name(receipt@.status))),
        ]);
    }
    match &receipt.action {
        Some(action) => {
            push_member(&mut members, "action", write_action(action).as_str());
        },
        None => {},
    }
    match &receipt.output {
        Some(output) => {
            push_member(&mut members, "output", output.to_text().as_str());
        },
        None => {},
    }
    match &receipt.error {
        Some(error) => {
            push_member(&mut members, "error", quote(error.as_str()).as_str());
        },
        None => {},
    }
    write_object(&members)
}

/// Writes a transcript message.
pub fn write_message(message: &TranscriptMessage) -> (text: String)
    ensures
        text@ == message_text(message@),
{
    let mut members = no_texts();
    match message {
        TranscriptMessage::User { content } => {
            push_member(&mut members, "role", quote("user").as_str());
            push_member(&mut members, "content", quote(content.as_str()).as_str());
            proof {
                assert(views(members@) =~= seq![
                    member_text("role"@, quoted("user"@)),
                    member_text("content"@, quoted(content@)),
                ]);
            }
        },
        TranscriptMessage::Assistant { content, tool_calls } => {
            let ghost wanted = views(tool_calls@).map_values(|call: ToolCallView| call_text(call));
            let mut items = no_texts();
            let mut index: usize = 0;
            assert(wanted.take(0) =~= Seq::empty());
            while index < tool_calls.len()
                invariant
                    index <= tool_calls@.len(),
                    wanted == views(tool_calls@).map_values(|call: ToolCallView| call_text(call)),
                    views(items@) == wanted.take(index as int),
                decreases tool_calls@.len() - index,
            {
                let item = write_call(&tool_calls[index]);
                proof {
                    lemma_views_push(items@, item);
                    assert(wanted.take(index as int + 1) =~= wanted.take(index as int).push(item@));
                }
                items.push(item);
                index = index + 1;
            }
            assert(wanted.take(index as int) =~= wanted);
            push_member(&mut members, "role", quote("assistant").as_str());
            push_member(&mut members, "content", quote(content.as_str()).as_str());
            push_member(&mut members, "tool_calls", write_array(&items).as_str());
            proof {
                assert(views(members@) =~= seq![
                    member_text("role"@, quoted("assistant"@)),
                    member_text("content"@, quoted(content@)),
                    member_text("tool_calls"@, array_text(wanted)),
                ]);
            }
        },
        TranscriptMessage::Tool { receipt } => {
            push_member(&mut members, "role", quote("tool").as_str());
            push_member(&mut members, "receipt", write_receipt(receipt).as_str());
            proof {
                assert(views(members@) =~= seq![
                    member_text("role"@, quoted("tool"@)),
                    member_text("receipt"@, receipt_text(receipt@)),
                ]);
            }
        },
    }
    write_object(&members)
}

} // verus!
