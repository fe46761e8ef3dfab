//! Tool calls, the actions they resolve to, and their receipts.

use vstd::prelude::*;
use vstd::string::*;

use crate::datum::{opt_view, same_all, same_opt, snapshot_all, snapshot_opt, views, Datum};
use crate::id::CallId;
use crate::json::{equal_json, equal_values, Json, JsonView};

verus! {

/// A tool call as the model emitted it.
#[derive(Debug, PartialEq, Eq)]
pub struct ToolCall {
    pub id: CallId,
    pub name: String,
    pub arguments: Json,
}

/// The model of [`ToolCall`].
#[verifier::ext_equal]
pub ghost struct ToolCallView {
    pub id: Seq<char>,
    pub name: Seq<char>,
    pub arguments: JsonView,
}

impl View for ToolCall {
    type V = ToolCallView;

    open spec fn view(&self) -> ToolCallView {
        ToolCallView {
            id: self.id@,
            name: self.name@,
            arguments: self.arguments@,
        }
    }
}

impl Datum for ToolCall {
    fn snapshot(&self) -> (copy: Self) {
        ToolCall {
            id: self.id.snapshot(),
            name: self.name.snapshot(),
            arguments: self.arguments.snapshot(),
        }
    }

    fn same(&self, other: &Self) -> (equal: bool) {
        self.id.same(&other.id) && self.name.same(&other.name)
            && self.arguments.same(&other.arguments)
    }
}

impl Clone for ToolCall {
    fn clone(&self) -> (copy: Self)
        ensures
            copy@ == self@,
    {
        self.snapshot()
    }
}

impl ToolCall {
    /// A call of the named tool under an identifier that the host made.
    pub fn new(id: CallId, name: String, arguments: Json) -> (call: Self)
        ensures
            call@ == (ToolCallView { id: id@, name: name@, arguments: arguments@ }),
    {
        ToolCall { id, name, arguments }
    }
}

/// What an action may change.
#[derive(Clone, Copy, Debug, PartialEq, Eq, Structural)]
pub enum EffectKind {
    ReadOnly,
    WorkspaceWrite,
    ExternalSideEffect,
}

/// Whether an action may be repeated.
#[derive(Clone, Copy, Debug, PartialEq, Eq, Structural)]
pub enum RetrySafety {
    Safe,
    Idempotent,
    Unsafe,
}

/// The exact, normalized action that policy and approval bind to.
/// 
/// A tool must resolve paths, defaults, aliases, and execution scope before it
/// returns this value. Execution receives this same value, so it cannot silently
/// swap in the model's unnormalized arguments after approval.
#[derive(Debug, PartialEq, Eq)]
pub struct CanonicalAction {
    pub tool_name: String,
    pub arguments: Json,
    pub effect: EffectKind,
    pub retry_safety: RetrySafety,
    pub scope: Option<String>,
}

/// The model of [`CanonicalAction`].
#[verifier::ext_equal]
pub ghost struct CanonicalActionView {
    pub tool_name: Seq<char>,
    pub arguments: JsonView,
    pub effect: EffectKind,
    pub retry_safety: RetrySafety,
    pub scope: Option<Seq<char>>,
}

impl View for CanonicalAction {
    type V = CanonicalActionView;

    open spec fn view(&self) -> CanonicalActionView {
        CanonicalActionView {
            tool_name: self.tool_name@,
            arguments: self.arguments@,
            effect: self.effect,
            retry_safety: self.retry_safety,
            scope: opt_view(self.scope),
        }
    }
}

impl Datum for CanonicalAction {
    fn snapshot(&self) -> (copy: Self) {
        CanonicalAction {
            tool_name: self.tool_name.snapshot(),
            arguments: self.arguments.snapshot(),
            effect: self.effect,
            retry_safety: self.retry_safety,
            scope: snapshot_opt(&self.scope),
        }
    }

    fn same(&self, other: &Self) -> (equal: bool) {
        self.tool_name.same(&other.tool_name) && self.arguments.same(&other.arguments)
            && self.effect == other.effect && self.retry_safety == other.retry_safety
            && same_opt(&self.scope, &other.scope)
    }
}

impl Clone for CanonicalAction {
    fn clone(&self) -> (copy: Self)
        ensures
            copy@ == self@,
    {
        self.snapshot()
    }
}

/// Whether two actions are equal. Their arguments are compared as JSON.
pub open spec fn equal_actions(left: CanonicalActionView, right: CanonicalActionView) -> bool {
    &&& left.tool_name == right.tool_name
    &&& equal_values(left.arguments, right.arguments)
    &&& left.effect == right.effect
    &&& left.retry_safety == right.retry_safety
    &&& left.scope == right.scope
}

impl CanonicalAction {
    /// Whether this is exactly that action.
    pub fn equals(&self, other: &Self) -> (equal: bool)
        ensures
            equal == equal_actions(self@, other@),
    {
        self.tool_name.same(&other.tool_name) && equal_json(&self.arguments, &other.arguments)
            && self.effect == other.effect && self.retry_safety == other.retry_safety
            && same_opt(&self.scope, &other.scope)
    }

    /// An action without a scope.
    pub fn new(
        tool_name: String,
        arguments: Json,
        effect: EffectKind,
        retry_safety: RetrySafety,
    ) -> (action: Self)
        ensures
            action@ == (CanonicalActionView {
                tool_name: tool_name@,
                arguments: arguments@,
                effect,
                retry_safety,
                scope: None,
            }),
    {
        CanonicalAction { tool_name, arguments, effect, retry_safety, scope: None }
    }

    /// The same action within a scope.
    pub fn in_scope(self, scope: String) -> (action: Self)
        ensures
            action@ == (CanonicalActionView { scope: Some(scope@), ..self@ }),
    {
        CanonicalAction {
            tool_name: self.tool_name,
            arguments: self.arguments,
            effect: self.effect,
            retry_safety: self.retry_safety,
            scope: Some(scope),
        }
    }
}

/// A call together with the action that it was resolved to.
#[derive(Debug, PartialEq, Eq)]
pub struct PreparedToolCall {
    pub call_id: CallId,
    pub action: CanonicalAction,
}

/// The model of [`PreparedToolCall`].
#[verifier::ext_equal]
pub ghost struct PreparedToolCallView {
    pub call_id: Seq<char>,
    pub action: CanonicalActionView,
}

impl View for PreparedToolCall {
    type V = PreparedToolCallView;

    open spec fn view(&self) -> PreparedToolCallView {
        PreparedToolCallView {
            call_id: self.call_id@,
            action: self.action@,
        }
    }
}

impl Datum for PreparedToolCall {
    fn snapshot(&self) -> (copy: Self) {
        PreparedToolCall {
            call_id: self.call_id.snapshot(),
            action: self.action.snapshot(),
        }
    }

    fn same(&self, other: &Self) -> (equal: bool) {
        self.call_id.same(&other.call_id) && self.action.same(&other.action)
    }
}

impl Clone for PreparedToolCall {
    fn clone(&self) -> (copy: Self)
        ensures
            copy@ == self@,
    {
        self.snapshot()
    }
}

/// How a tool call ended.
#[derive(Clone, Copy, Debug, PartialEq, Eq, Structural)]
pub enum ReceiptStatus {
    Succeeded,
    Failed,
    Denied,
    Unknown,
}

/// Durable result of a tool request. Every model-emitted call gets one receipt,
/// including denied, malformed, interrupted, and unknown calls.
#[derive(Debug, PartialEq, Eq)]
pub struct ToolReceipt {
    pub call_id: CallId,
    pub tool_name: String,
    pub status: ReceiptStatus,
    pub action: Option<CanonicalAction>,
    pub output: Option<Json>,
    pub error: Option<String>,
}

/// The model of [`ToolReceipt`].
#[verifier::ext_equal]
pub ghost struct ToolReceiptView {
    pub call_id: Seq<char>,
    pub tool_name: Seq<char>,
    pub status: ReceiptStatus,
    pub action: Option<CanonicalActionView>,
    pub output: Option<JsonView>,
    pub error: Option<Seq<char>>,
}

impl View for ToolReceipt {
    type V = ToolReceiptView;

    open spec fn view(&self) -> ToolReceiptView {
        ToolReceiptView {
            call_id: self.call_id@,
            tool_name: self.tool_name@,
            status: self.status,
            action: opt_view(self.action),
            output: opt_view(self.output),
            error: opt_view(self.error),
        }
    }
}

impl Datum for ToolReceipt {
    fn snapshot(&self) -> (copy: Self) {
        ToolReceipt {
            call_id: self.call_id.snapshot(),
            tool_name: self.tool_name.snapshot(),
            status: self.status,
            action: snapshot_opt(&self.action),
            output: snapshot_opt(&self.output),
            error: snapshot_opt(&self.error),
        }
    }

    fn same(&self, other: &Self) -> (equal: bool) {
        self.call_id.same(&other.call_id) && self.tool_name.same(&other.tool_name)
            && self.status == other.status && same_opt(&self.action, &other.action)
            && same_opt(&self.output, &other.output) && same_opt(&self.error, &other.error)
    }
}

impl Clone for ToolReceipt {
    fn clone(&self) -> (copy: Self)
        ensures
            copy@ == self@,
    {
        self.snapshot()
    }
}

/// The receipt of an execution that returned an output.
pub open spec fn succeeded_receipt(
    prepared: PreparedToolCallView,
    output: JsonView,
) -> ToolReceiptView {
    ToolReceiptView {
        call_id: prepared.call_id,
        tool_name: prepared.action.tool_name,
        status: ReceiptStatus::Succeeded,
        action: Some(prepared.action),
        output: Some(output),
        error: None,
    }
}

/// The receipt of a prepared call that ended in `status` with a message.
pub open spec fn ended_receipt(
    prepared: PreparedToolCallView,
    status: ReceiptStatus,
    message: Seq<char>,
) -> ToolReceiptView {
    ToolReceiptView {
        call_id: prepared.call_id,
        tool_name: prepared.action.tool_name,
        status,
        action: Some(prepared.action),
        output: None,
        error: Some(message),
    }
}

/// The receipt of a call that was not let through.
pub open spec fn denied_receipt(
    call_id: Seq<char>,
    tool_name: Seq<char>,
    action: Option<CanonicalActionView>,
    reason: Seq<char>,
) -> ToolReceiptView {
    ToolReceiptView {
        call_id,
        tool_name,
        status: ReceiptStatus::Denied,
        action,
        output: None,
        error: Some(reason),
    }
}

/// The receipt of a call that could not be prepared.
pub open spec fn malformed_receipt(call: ToolCallView, message: Seq<char>) -> ToolReceiptView {
    ToolReceiptView {
        call_id: call.id,
        tool_name: call.name,
        status: ReceiptStatus::Failed,
        action: None,
        output: None,
        error: Some(message),
    }
}

impl ToolReceipt {
    pub fn succeeded(prepared: PreparedToolCall, output: Json) -> (receipt: Self)
        ensures
            receipt@ == succeeded_receipt(prepared@, output@),
    {
        ToolReceipt {
            call_id: prepared.call_id,
            tool_name: prepared.action.tool_name.clone(),
            status: ReceiptStatus::Succeeded,
            action: Some(prepared.action),
            output: Some(output),
            error: None,
        }
    }

    pub fn failed(prepared: PreparedToolCall, error: String) -> (receipt: Self)
        ensures
            receipt@ == ended_receipt(prepared@, ReceiptStatus::Failed, error@),
    {
        ToolReceipt {
            call_id: prepared.call_id,
            tool_name: prepared.action.tool_name.clone(),
            status: ReceiptStatus::Failed,
            action: Some(prepared.action),
            output: None,
            error: Some(error),
        }
    }

    pub fn denied(
        call_id: CallId,
        tool_name: String,
        action: Option<CanonicalAction>,
        reason: String,
    ) -> (receipt: Self)
        ensures
            receipt@ == denied_receipt(call_id@, tool_name@, opt_view(action), reason@),
    {
        ToolReceipt {
            call_id,
            tool_name,
            status: ReceiptStatus::Denied,
            action,
            output: None,
            error: Some(reason),
        }
    }

    pub fn malformed(call: &ToolCall, error: String) -> (receipt: Self)
        ensures
            receipt@ == malformed_receipt(call@, error@),
    {
        ToolReceipt {
            call_id: call.id.clone(),
            tool_name: call.name.clone(),
            status: ReceiptStatus::Failed,
            action: None,
            output: None,
            error: Some(error),
        }
    }

    pub fn unknown(prepared: PreparedToolCall, reason: String) -> (receipt: Self)
        ensures
            receipt@ == ended_receipt(prepared@, ReceiptStatus::Unknown, reason@),
    {
        ToolReceipt {
            call_id: prepared.call_id,
            tool_name: prepared.action.tool_name.clone(),
            status: ReceiptStatus::Unknown,
            action: Some(prepared.action),
            output: None,
            error: Some(reason),
        }
    }
}

/// One message of a conversation as the model sees it.
#[derive(Debug, PartialEq, Eq)]
pub enum TranscriptMessage {
    User { content: String },
    Assistant { content: String, tool_calls: Vec<ToolCall> },
    Tool { receipt: ToolReceipt },
}

/// The model of [`TranscriptMessage`].
#[verifier::ext_equal]
pub ghost enum TranscriptMessageView {
    User { content: Seq<char> },
    Assistant { content: Seq<char>, tool_calls: Seq<ToolCallView> },
    Tool { receipt: ToolReceiptView },
}

impl View for TranscriptMessage {
    type V = TranscriptMessageView;

    open spec fn view(&self) -> TranscriptMessageView {
        match *self {
            TranscriptMessage::User { content } => TranscriptMessageView::User {
                content: content@,
            },
            TranscriptMessage::Assistant { content, tool_calls } => {
                TranscriptMessageView::Assistant {
                    content: content@,
                    tool_calls: views(tool_calls@),
                }
            },
            TranscriptMessage::Tool { receipt } => TranscriptMessageView::Tool {
                receipt: receipt@,
            },
        }
    }
}

impl Datum for TranscriptMessage {
    fn snapshot(&self) -> (copy: Self) {
        match self {
            TranscriptMessage::User { content } => TranscriptMessage::User {
                content: content.snapshot(),
            },
            TranscriptMessage::Assistant { content, tool_calls } => TranscriptMessage::Assistant {
                content: content.snapshot(),
                tool_calls: snapshot_all(tool_calls),
            },
            TranscriptMessage::Tool { receipt } => TranscriptMessage::Tool {
                receipt: receipt.snapshot(),
            },
        }
    }

    fn same(&self, other: &Self) -> (equal: bool) {
        match (self, other) {
            (
                TranscriptMessage::User { content: content_a },
                TranscriptMessage::User { content: content_b },
            ) => content_a.same(content_b),
            (
                TranscriptMessage::Assistant { content: content_a, tool_calls: tool_calls_a },
                TranscriptMessage::Assistant { content: content_b, tool_calls: tool_calls_b },
            ) => content_a.same(content_b) && same_all(tool_calls_a, tool_calls_b),
            (
                TranscriptMessage::Tool { receipt: receipt_a },
                TranscriptMessage::Tool { receipt: receipt_b },
            ) => receipt_a.same(receipt_b),
            _ => false,
        }
    }
}

impl Clone for TranscriptMessage {
    fn clone(&self) -> (copy: Self)
        ensures
            copy@ == self@,
    {
        self.snapshot()
    }
}

} // verus!
