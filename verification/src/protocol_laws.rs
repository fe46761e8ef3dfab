//! What receipts, actions, grants and frames say.

use vstd::prelude::*;

use crate::approval::{ApprovalDecision, ApprovalRequest, DenyAllApprovals};
use crate::context::CompiledContext;
use crate::event::{EventEnvelope, EventEnvelopeView};
use crate::hook::{
    agree_after_tool, agree_before_model, agree_before_tool, answers_after_tool,
    answers_before_model, answers_before_tool, verdict_after_tool, verdict_before_model,
    verdict_before_tool, Hook, HookContext, HookErrorView,
};
use crate::id::{CallId, ThreadId, TurnId};
use crate::json::{json_text, Json, JsonView};
use crate::model::{progress_of, ModelProgressView, ModelRequestView, StopReason};
use crate::policy::{
    projected_access, projection_of, Access, CapabilityPolicy, PolicyContextView, ToolPolicy,
};
use crate::protocol::{
    equal_actions, CanonicalAction, CanonicalActionView, EffectKind, PreparedToolCall,
    ReceiptStatus, RetrySafety, ToolCall, ToolCallView, ToolReceipt, ToolReceiptView,
    TranscriptMessageView,
};
use crate::runtime::{frames, next_number, numbered_from, runtime_grants, AgentRuntime};
use crate::session::demo_answer;
use crate::text::{join_of, occurs, stands_at};
use crate::text_laws::law_joined_texts_hold_each_part;
use crate::tool::{definitions_of, ToolDefinitionView, ToolExecutionContext};
use crate::wire::{
    action_text, array_text, call_text, effect_name, member_text, message_text, object_text,
    quoted, receipt_members, receipt_text, retry_name, status_name,
};
use crate::datum::views;
use crate::turn::{RuntimeError, RuntimeErrorView, TurnFrameView};

verus! {

// ---------------------------------------------------------------------------
// Receipts and actions
// ---------------------------------------------------------------------------

/// Every receipt of a prepared call has the id of the call, the name of its tool and its
/// action. A success has the output and no error; a failure and an unknown outcome have the
/// message and no output.
pub proof fn law_receipts_of_prepared_calls(
    prepared: PreparedToolCall,
    output: Json,
    message: String,
    succeeded: ToolReceipt,
    failed: ToolReceipt,
    unknown: ToolReceipt,
)
    requires
        call_ensures(ToolReceipt::succeeded, (prepared, output), succeeded),
        call_ensures(ToolReceipt::failed, (prepared, message), failed),
        call_ensures(ToolReceipt::unknown, (prepared, message), unknown),
    ensures
        succeeded@.call_id == prepared@.call_id && failed@.call_id == prepared@.call_id
            && unknown@.call_id == prepared@.call_id,
        succeeded@.tool_name == prepared@.action.tool_name && failed@.tool_name
            == prepared@.action.tool_name && unknown@.tool_name == prepared@.action.tool_name,
        succeeded@.action == Some(prepared@.action) && failed@.action == Some(prepared@.action)
            && unknown@.action == Some(prepared@.action),
        succeeded@.status == ReceiptStatus::Succeeded && succeeded@.output == Some(output@)
            && succeeded@.error is None,
        failed@.status == ReceiptStatus::Failed && failed@.output is None && failed@.error == Some(
            message@,
        ),
        unknown@.status == ReceiptStatus::Unknown && unknown@.output is None && unknown@.error
            == Some(message@),
{
}

/// The receipt of a call that was not executed has the id and the name of that call, the reason
/// and no output: denied with the action that was shown, or failed without one.
pub proof fn law_receipts_of_calls_not_executed(
    call: ToolCall,
    call_id: CallId,
    tool_name: String,
    action: Option<CanonicalAction>,
    reason: String,
    denied: ToolReceipt,
    malformed: ToolReceipt,
)
    requires
        call_ensures(ToolReceipt::denied, (call_id, tool_name, action, reason), denied),
        call_ensures(ToolReceipt::malformed, (&call, reason), malformed),
    ensures
        denied@.call_id == call_id@ && denied@.tool_name == tool_name@,
        denied@.status == ReceiptStatus::Denied && denied@.output is None && denied@.error == Some(
            reason@,
        ),
        match action {
            Some(shown) => denied@.action == Some(shown@),
            None => denied@.action is None,
        },
        malformed@.call_id == call@.id && malformed@.tool_name == call@.name,
        malformed@.status == ReceiptStatus::Failed && malformed@.action is None && malformed@.output
            is None && malformed@.error == Some(reason@),
{
}

/// Actions are equal only where each part is: the tool, the effect, whether it may be repeated,
/// and the scope. An action equals itself with other arguments only where these are equal as
/// values.
pub proof fn law_equal_actions_agree_in_every_part(
    left: CanonicalActionView,
    right: CanonicalActionView,
)
    ensures
        equal_actions(left, right) ==> left.tool_name == right.tool_name && left.effect
            == right.effect && left.retry_safety == right.retry_safety && left.scope == right.scope,
        left.tool_name != right.tool_name ==> !equal_actions(left, right),
        (left.arguments matches JsonView::Text(text) && right.arguments != JsonView::Text(text))
            ==> !equal_actions(left, right),
        (left.arguments matches JsonView::Integer(number) && right.arguments != JsonView::Integer(
            number,
        )) ==> !equal_actions(left, right),
        (left.arguments matches JsonView::Object(members) && right.arguments
            matches JsonView::Object(others) && members.dom() != others.dom()) ==> !equal_actions(
            left,
            right,
        ),
{
}

// ---------------------------------------------------------------------------
// Texts on the wire
// ---------------------------------------------------------------------------

proof fn lemma_member_of_object(members: Seq<Seq<char>>, index: int)
    requires
        0 <= index < members.len(),
    ensures
        occurs(object_text(members), members[index]),
{
    law_joined_texts_hold_each_part(members, ","@, index);
    let inner = join_of(members, ","@);
    let part = members[index];
    let at = choose|at: int| stands_at(inner, part, at);
    let whole = "{"@ + inner + "}"@;
    let place = at + "{"@.len();
    assert(whole.subrange(place, place + part.len()) =~= inner.subrange(at, at + part.len()));
    assert(stands_at(whole, part, place));
}

/// The text of a receipt tells the id of its call, its tool and its status, and its output and
/// its error where it has them.
pub proof fn law_receipt_texts_tell_the_receipt(receipt: ToolReceiptView)
    ensures
        ({
            let text = receipt_text(receipt);
            let status = match receipt.status {
                ReceiptStatus::Succeeded => "succeeded"@,
                ReceiptStatus::Failed => "failed"@,
                ReceiptStatus::Denied => "denied"@,
                ReceiptStatus::Unknown => "unknown"@,
            };
            &&& occurs(
                text,
                "\""@ + "call_id"@ + "\":"@ + json_text(JsonView::Text(receipt.call_id)),
            )
            &&& occurs(
                text,
                "\""@ + "tool_name"@ + "\":"@ + json_text(JsonView::Text(receipt.tool_name)),
            )
            &&& occurs(text, "\""@ + "status"@ + "\":"@ + json_text(JsonView::Text(status)))
            &&& receipt.output matches Some(output) ==> occurs(
                text,
                "\""@ + "output"@ + "\":"@ + json_text(output),
            )
            &&& receipt.error matches Some(error) ==> occurs(
                text,
                "\""@ + "error"@ + "\":"@ + json_text(JsonView::Text(error)),
            )
            &&& receipt.action matches Some(action) ==> occurs(
                text,
                "\""@ + "action"@ + "\":"@ + action_text(action),
            )
        }),
{
    let members = receipt_members(receipt);
    lemma_member_of_object(members, 0);
    lemma_member_of_object(members, 1);
    lemma_member_of_object(members, 2);
    let acted: int = if receipt.action is Some {
        4
    } else {
        3
    };
    let put_out: int = if receipt.output is Some {
        acted + 1
    } else {
        acted
    };
    if receipt.action is Some {
        lemma_member_of_object(members, 3);
    }
    if receipt.output is Some {
        lemma_member_of_object(members, acted);
    }
    if receipt.error is Some {
        lemma_member_of_object(members, put_out);
    }
}

/// The text of an action tells its tool, its arguments, its effect, whether it may be repeated,
/// and its scope where it has one.
pub proof fn law_action_texts_tell_the_action(action: CanonicalActionView)
    ensures
        ({
            let text = action_text(action);
            let effect = match action.effect {
                EffectKind::ReadOnly => "read_only"@,
                EffectKind::WorkspaceWrite => "workspace_write"@,
                EffectKind::ExternalSideEffect => "external_side_effect"@,
            };
            let retry = match action.retry_safety {
                RetrySafety::Safe => "safe"@,
                RetrySafety::Idempotent => "idempotent"@,
                RetrySafety::Unsafe => "unsafe"@,
            };
            &&& occurs(
                text,
                "\""@ + "tool_name"@ + "\":"@ + json_text(JsonView::Text(action.tool_name)),
            )
            &&& occurs(text, "\""@ + "arguments"@ + "\":"@ + json_text(action.arguments))
            &&& occurs(text, "\""@ + "effect"@ + "\":"@ + json_text(JsonView::Text(effect)))
            &&& occurs(text, "\""@ + "retry_safety"@ + "\":"@ + json_text(JsonView::Text(retry)))
            &&& action.scope matches Some(scope) ==> occurs(
                text,
                "\""@ + "scope"@ + "\":"@ + json_text(JsonView::Text(scope)),
            )
        }),
{
    let members = seq![
        member_text("tool_name"@, quoted(action.tool_name)),
        member_text("arguments"@, json_text(action.arguments)),
        member_text("effect"@, quoted(effect_name(action.effect))),
        member_text(
            "retry_safety"@,
            quoted(retry_name(action.retry_safety)),
        ),
    ];
    let all = match action.scope {
        Some(scope) => members.push(
            member_text("scope"@, quoted(scope)),
        ),
        None => members,
    };
    lemma_member_of_object(all, 0);
    lemma_member_of_object(all, 1);
    lemma_member_of_object(all, 2);
    lemma_member_of_object(all, 3);
    if action.scope is Some {
        lemma_member_of_object(all, 4);
    }
}

/// The text of a call tells its id, its name and its arguments, that of a message who says it
/// and what is said.
pub proof fn law_message_texts_tell_the_message(call: ToolCallView, message: TranscriptMessageView)
    ensures
        occurs(call_text(call), "\""@ + "id"@ + "\":"@ + json_text(JsonView::Text(call.id))),
        occurs(call_text(call), "\""@ + "name"@ + "\":"@ + json_text(JsonView::Text(call.name))),
        occurs(call_text(call), "\""@ + "arguments"@ + "\":"@ + json_text(call.arguments)),
        match message {
            TranscriptMessageView::User { content } => occurs(
                message_text(message),
                "\""@ + "role"@ + "\":"@ + json_text(JsonView::Text("user"@)),
            ) && occurs(
                message_text(message),
                "\""@ + "content"@ + "\":"@ + json_text(JsonView::Text(content)),
            ),
            TranscriptMessageView::Assistant { content, tool_calls } => occurs(
                message_text(message),
                "\""@ + "role"@ + "\":"@ + json_text(JsonView::Text("assistant"@)),
            ) && occurs(
                message_text(message),
                "\""@ + "content"@ + "\":"@ + json_text(JsonView::Text(content)),
            ) && occurs(
                message_text(message),
                "\""@ + "tool_calls"@ + "\":"@ + array_text(
                    tool_calls.map_values(|call: ToolCallView| call_text(call)),
                ),
            ),
            TranscriptMessageView::Tool { receipt } => occurs(
                message_text(message),
                "\""@ + "role"@ + "\":"@ + json_text(JsonView::Text("tool"@)),
            ) && occurs(
                message_text(message),
                "\""@ + "receipt"@ + "\":"@ + receipt_text(receipt),
            ),
        },
{
    let told = seq![
        member_text("id"@, quoted(call.id)),
        member_text("name"@, quoted(call.name)),
        member_text("arguments"@, json_text(call.arguments)),
    ];
    lemma_member_of_object(told, 0);
    lemma_member_of_object(told, 1);
    lemma_member_of_object(told, 2);
    match message {
        TranscriptMessageView::User { content } => {
            let members = seq![
                member_text("role"@, quoted("user"@)),
                member_text("content"@, quoted(content)),
            ];
            lemma_member_of_object(members, 0);
            lemma_member_of_object(members, 1);
        },
        TranscriptMessageView::Assistant { content, tool_calls } => {
            let members = seq![
                member_text("role"@, quoted("assistant"@)),
                member_text("content"@, quoted(content)),
                member_text(
                    "tool_calls"@,
                    array_text(tool_calls.map_values(|call: ToolCallView| call_text(call))),
                ),
            ];
            lemma_member_of_object(members, 0);
            lemma_member_of_object(members, 1);
            lemma_member_of_object(members, 2);
        },
        TranscriptMessageView::Tool { receipt } => {
            let members = seq![
                member_text("role"@, quoted("tool"@)),
                member_text("receipt"@, receipt_text(receipt)),
            ];
            lemma_member_of_object(members, 0);
            lemma_member_of_object(members, 1);
        },
    }
}

/// Different effects, different degrees of safety and different statuses have different names.
pub proof fn law_names_on_the_wire_differ(
    effect: EffectKind,
    other_effect: EffectKind,
    retry: RetrySafety,
    other_retry: RetrySafety,
    status: ReceiptStatus,
    other_status: ReceiptStatus,
)
    ensures
        effect_name(effect) == effect_name(other_effect) <==> effect == other_effect,
        retry_name(retry) == retry_name(other_retry) <==> retry == other_retry,
        status_name(status) == status_name(other_status) <==> status == other_status,
{
    reveal_strlit("read_only");
    reveal_strlit("workspace_write");
    reveal_strlit("external_side_effect");
    assert("read_only"@.len() == 9 && "workspace_write"@.len() == 15
        && "external_side_effect"@.len() == 20);
    reveal_strlit("safe");
    reveal_strlit("idempotent");
    reveal_strlit("unsafe");
    assert("safe"@.len() == 4 && "idempotent"@.len() == 10 && "unsafe"@.len() == 6);
    reveal_strlit("succeeded");
    reveal_strlit("failed");
    reveal_strlit("denied");
    reveal_strlit("unknown");
    assert("succeeded"@.len() == 9 && "failed"@.len() == 6 && "denied"@.len() == 6
        && "unknown"@.len() == 7);
    assert("failed"@[0] != "denied"@[0]);
}

// ---------------------------------------------------------------------------
// Grants
// ---------------------------------------------------------------------------

/// A tool is allowed only where both the policy and the parent allow it, and denied where one of
/// them denies it; in between it is asked for. Without a parent the policy alone decides. A tool
/// that is not known is denied.
pub proof fn law_grants_need_policy_and_parent<P: ToolPolicy>(
    tool_names: Seq<Seq<char>>,
    policy: &P,
    context: PolicyContextView,
    parent: Map<Seq<char>, Access>,
    name: Seq<char>,
)
    ensures
        ({
            let alone = projected_access(projection_of(tool_names, policy, context, None), name);
            let within = projected_access(
                projection_of(tool_names, policy, context, Some(parent)),
                name,
            );
            let own = policy.grants(name, context);
            let above = if parent.contains_key(name) {
                parent[name]
            } else {
                Access::Deny
            };
            &&& !tool_names.contains(name) ==> alone == Access::Deny && within == Access::Deny
            &&& tool_names.contains(name) ==> {
                &&& alone == own
                &&& within == Access::Allow <==> own == Access::Allow && above == Access::Allow
                &&& within == Access::Deny <==> own == Access::Deny || above == Access::Deny
            }
        }),
{
}

/// A policy grants a tool what it was told for it, and any other tool its default.
pub proof fn law_policies_grant_what_they_were_told(
    policy: CapabilityPolicy,
    name: String,
    access: Access,
    granted: CapabilityPolicy,
    other: Seq<char>,
    context: PolicyContextView,
)
    requires
        call_ensures(CapabilityPolicy::grant, (policy, name, access), granted),
    ensures
        granted.grants(name@, context) == access,
        other != name@ ==> granted.grants(other, context) == policy.grants(other, context),
{
}

/// Without a word on them all tools are denied.
pub proof fn law_policies_deny_by_default(
    policy: CapabilityPolicy,
    name: Seq<char>,
    context: PolicyContextView,
)
    requires
        call_ensures(CapabilityPolicy::deny_by_default, (), policy),
    ensures
        policy.grants(name, context) == Access::Deny,
{
}

/// A runtime grants each of its registered tools what its policy grants within the parent, and
/// no other tool anything.
pub proof fn law_runtimes_grant_registered_tools_alone<P: ToolPolicy, T>(
    tools: Map<Seq<char>, (ToolDefinitionView, T)>,
    policy: &P,
    context: PolicyContextView,
    parent: Option<Map<Seq<char>, Access>>,
    name: Seq<char>,
)
    ensures
        !tools.contains_key(name) ==> projected_access(
            runtime_grants(tools, policy, context, parent),
            name,
        ) == Access::Deny,
        tools.contains_key(name) && parent is None ==> projected_access(
            runtime_grants(tools, policy, context, parent),
            name,
        ) == policy.grants(name, context),
        parent matches Some(above) && !above.contains_key(name) ==> projected_access(
            runtime_grants(tools, policy, context, parent),
            name,
        ) == Access::Deny,
{
}

/// The definitions of registered names are theirs, one for one and in their order.
pub proof fn law_definitions_are_those_of_the_names<T>(
    tools: Map<Seq<char>, (ToolDefinitionView, T)>,
    names: Seq<Seq<char>>,
    name: Seq<char>,
)
    ensures
        definitions_of(tools, Seq::empty()).len() == 0,
        tools.contains_key(name) ==> definitions_of(tools, names.push(name)) == definitions_of(
            tools,
            names,
        ).push(tools[name].0),
        !tools.contains_key(name) ==> definitions_of(tools, names.push(name)) == definitions_of(
            tools,
            names,
        ),
{
    assert(names.push(name).drop_last() =~= names);
}

/// Without an approver nothing is approved.
pub proof fn law_nobody_approves_nothing(
    approver: DenyAllApprovals,
    request: ApprovalRequest,
    decision: ApprovalDecision,
)
    requires
        call_ensures(DenyAllApprovals::request, (&approver, &request), decision),
    ensures
        decision@ is Denied,
{
}

/// A tool is told the thread and the turn that it runs for, and the workspace and the metadata of
/// its runtime.
pub proof fn law_tools_are_told_their_turn<P: ToolPolicy, T>(
    runtime: AgentRuntime<P, T>,
    thread_id: ThreadId,
    turn_id: TurnId,
    context: ToolExecutionContext,
)
    requires
        call_ensures(
            AgentRuntime::<P, T>::tool_context,
            (&runtime, &thread_id, &turn_id),
            context,
        ),
    ensures
        context@.thread_id == thread_id@,
        context@.turn_id == turn_id@,
        context@.workspace == runtime.limits().workspace,
        context@.metadata == runtime.limits().tool_metadata,
{
}

// ---------------------------------------------------------------------------
// Hooks, observers and the demonstration
// ---------------------------------------------------------------------------

/// Hooks that are asked one after the other agree only where each of them agrees, and a refusal
/// is that of one hook, word for word, at the point where it was asked.
pub proof fn law_hooks_agree_together<H: Hook>(
    hooks: Seq<H>,
    context: HookContext,
    compiled: CompiledContext,
    prepared: PreparedToolCall,
    before_model: Result<(), HookErrorView>,
    before_tool: Result<(), HookErrorView>,
)
    requires
        verdict_before_model(hooks, context, compiled, before_model),
        verdict_before_tool(hooks, context, prepared, before_tool),
    ensures
        before_model is Ok ==> forall|i: int|
            0 <= i < hooks.len() ==> answers_before_model(
                #[trigger] hooks[i],
                context,
                compiled,
                Ok(()),
            ),
        before_tool is Ok ==> forall|i: int|
            0 <= i < hooks.len() ==> answers_before_tool(
                #[trigger] hooks[i],
                context,
                prepared,
                Ok(()),
            ),
        before_model matches Err(error) ==> error.point == "before_model"@ && exists|i: int|
            0 <= i < hooks.len() && answers_before_model(
                #[trigger] hooks[i],
                context,
                compiled,
                Err(error.reason),
            ),
        before_tool matches Err(error) ==> error.point == "before_tool"@ && exists|i: int|
            0 <= i < hooks.len() && answers_before_tool(
                #[trigger] hooks[i],
                context,
                prepared,
                Err(error.reason),
            ),
{
    match before_model {
        Err(error) => {
            let count = choose|count: int| #[trigger]
                agree_before_model(hooks, context, compiled, count) && count < hooks.len()
                    && answers_before_model(hooks[count], context, compiled, Err(error.reason));
            assert(answers_before_model(hooks[count], context, compiled, Err(error.reason)));
        },
        Ok(()) => {},
    }
    match before_tool {
        Err(error) => {
            let count = choose|count: int| #[trigger]
                agree_before_tool(hooks, context, prepared, count) && count < hooks.len()
                    && answers_before_tool(hooks[count], context, prepared, Err(error.reason));
            assert(answers_before_tool(hooks[count], context, prepared, Err(error.reason)));
        },
        Ok(()) => {},
    }
}

/// Observers are told of progress under the thread, the turn and the round of its request.
pub proof fn law_progress_is_told_of_its_request(
    request: ModelRequestView,
    progress: ModelProgressView,
)
    ensures
        ({
            let told = progress_of(request, progress);
            &&& told.thread_id == request.thread_id
            &&& told.turn_id == request.turn_id
            &&& told.iteration == request.iteration
            &&& told.progress == progress
        }),
{
}

/// News of a thread are its events with a number behind the last one that was known, in their
/// order.
pub proof fn law_news_are_behind_what_was_known(
    events: Seq<EventEnvelopeView>,
    record: EventEnvelopeView,
    first: u64,
)
    ensures
        numbered_from(Seq::empty(), first).len() == 0,
        record.sequence >= first ==> numbered_from(events.push(record), first) == numbered_from(
            events,
            first,
        ).push(record),
        record.sequence < first ==> numbered_from(events.push(record), first) == numbered_from(
            events,
            first,
        ),
        next_number(Seq::empty()) == 0,
        record.sequence < u64::MAX ==> next_number(events.push(record)) == record.sequence + 1,
{
    assert(events.push(record).drop_last() =~= events);
}

/// The model that needs no provider answers with the last message of the user, asks for no tool,
/// and ends the turn.
pub proof fn law_the_demonstration_echoes(
    before: Seq<TranscriptMessageView>,
    content: Seq<char>,
)
    ensures
        ({
            let answer = demo_answer(before.push(TranscriptMessageView::User { content }));
            &&& answer.content == "demo response: "@ + content
            &&& answer.tool_calls.len() == 0
            &&& answer.stop_reason == StopReason::EndTurn
        }),
{
}

/// Hooks that look at a receipt agree only where each of them agrees, and a refusal is that of one
/// hook, word for word.
pub proof fn law_hooks_agree_on_receipts<H: Hook>(
    hooks: Seq<H>,
    context: HookContext,
    receipt: ToolReceipt,
    verdict: Result<(), HookErrorView>,
)
    requires
        verdict_after_tool(hooks, context, receipt, verdict),
    ensures
        verdict is Ok ==> forall|i: int|
            0 <= i < hooks.len() ==> answers_after_tool(
                #[trigger] hooks[i],
                context,
                receipt,
                Ok(()),
            ),
        verdict matches Err(error) ==> error.point == "after_tool"@ && exists|i: int|
            0 <= i < hooks.len() && answers_after_tool(
                #[trigger] hooks[i],
                context,
                receipt,
                Err(error.reason),
            ),
{
    match verdict {
        Err(error) => {
            let count = choose|count: int| #[trigger]
                agree_after_tool(hooks, context, receipt, count) && count < hooks.len()
                    && answers_after_tool(hooks[count], context, receipt, Err(error.reason));
            assert(answers_after_tool(hooks[count], context, receipt, Err(error.reason)));
        },
        Ok(()) => {},
    }
}

/// A thread is known once it was started, and a turn is used once an event belongs to it.
pub proof fn law_threads_and_turns_are_known_by_their_events<P: ToolPolicy, T>(
    runtime: AgentRuntime<P, T>,
    events: Vec<EventEnvelope>,
    thread_id: ThreadId,
    turn_id: TurnId,
    known: Result<(), RuntimeError>,
    unused: Result<(), RuntimeError>,
)
    requires
        call_ensures(
            AgentRuntime::<P, T>::ensure_thread,
            (&runtime, &events, &thread_id),
            known,
        ),
        call_ensures(
            AgentRuntime::<P, T>::ensure_turn_unused,
            (&runtime, &events, &thread_id, &turn_id),
            unused,
        ),
    ensures
        known is Ok <==> exists|i: int|
            0 <= i < events@.len() && (#[trigger] views(events@)[i]).event is ThreadStarted,
        known matches Err(error) ==> error@ == RuntimeErrorView::UnknownThread(thread_id@),
        unused is Ok <==> !(exists|i: int|
            0 <= i < events@.len() && (#[trigger] views(events@)[i]).turn_id == Some(turn_id@)),
        unused matches Err(error) ==> error@ == (RuntimeErrorView::DuplicateTurn {
            thread_id: thread_id@,
            turn_id: turn_id@,
        }),
{
    assert(views(events@).len() == events@.len());
}

/// A turn is framed by what its thread may use: the grants themselves, every name that they do not
/// deny, the definitions of those of these that are registered, and all registered names.
pub proof fn law_frames_hold_the_grants<T>(
    frame: TurnFrameView,
    tools: Map<Seq<char>, (ToolDefinitionView, T)>,
    grants: Map<Seq<char>, Access>,
    name: Seq<char>,
)
    requires
        frames(frame, tools, grants),
    ensures
        frame.capabilities == grants,
        frame.visible_names.contains(name) <==> projected_access(grants, name) != Access::Deny,
        frame.registered.contains(name) <==> tools.contains_key(name),
        frame.visible_names.contains(name) && tools.contains_key(name)
            ==> frame.visible_tools.contains(tools[name].0),
        forall|i: int|
            0 <= i < frame.visible_tools.len() ==> projected_access(
                grants,
                (#[trigger] frame.visible_tools[i]).name,
            ) != Access::Deny,
{
    assert(frame.registered.to_set().contains(name) == tools.dom().contains(name));
    if frame.visible_names.contains(name) && tools.contains_key(name) {
        lemma_definition_is_listed(tools, frame.visible_names, name);
    }
}

proof fn lemma_definition_is_listed<T>(
    tools: Map<Seq<char>, (ToolDefinitionView, T)>,
    names: Seq<Seq<char>>,
    name: Seq<char>,
)
    requires
        names.contains(name),
        tools.contains_key(name),
    ensures
        definitions_of(tools, names).contains(tools[name].0),
    decreases names.len(),
{
    let rest = definitions_of(tools, names.drop_last());
    let all = definitions_of(tools, names);
    if names.last() == name {
        assert(all[all.len() - 1] == tools[name].0);
    } else {
        let i = choose|i: int| 0 <= i < names.len() && names[i] == name;
        assert(names.drop_last()[i] == name);
        lemma_definition_is_listed(tools, names.drop_last(), name);
        let k = choose|k: int| 0 <= k < rest.len() && rest[k] == tools[name].0;
        assert(all[k] == tools[name].0);
    }
}

} // verus!
