//! What goes to the provider, and what is read from its answers.

use vstd::prelude::*;

use crate::context::PromptSegmentView;
use crate::json::{json_parse, json_text, member, Json, JsonView};
use crate::model::{ModelError, ModelErrorView, ModelRequestView, ModelResponseView, StopReason};
use crate::protocol::{ToolCallView, ToolReceiptView, TranscriptMessageView};
use crate::provider::{
    admitted, call_of, calls_of, capped_body, completed, completes, content_of, counted_view,
    counts, framed_body, http_request_of, plain_answer, plain_refusal, post_plainly, proceeds,
    response_of, sent_call, sent_calls, sent_message, sent_messages, sent_tool, sent_tools,
    stop_reason_of, system_message, usable_budget, AdapterView, HttpControl, HttpRequest,
    HttpRequestView, HttpResponse, HttpResponseView, HttpTransport, OpenAiConfigView,
    RequestBudget, RequestTokenCounter, TransportError, TransportErrorView,
};
use crate::tool::ToolDefinitionView;
use crate::wire::receipt_text;
use crate::datum::res_view;

verus! {

// ---------------------------------------------------------------------------
// Requests
// ---------------------------------------------------------------------------

/// Whether a value is the function call of a tool call, with its id, its name and the text
/// of its arguments.
pub open spec fn tells_call(value: JsonView, call: ToolCallView) -> bool {
    &&& member(value, "id"@) == Some(JsonView::Text(call.id))
    &&& member(value, "type"@) == Some(JsonView::Text("function"@))
    &&& member(value, "function"@) matches Some(function)
    &&& member(function, "name"@) == Some(JsonView::Text(call.name))
    &&& member(function, "arguments"@) == Some(JsonView::Text(json_text(call.arguments)))
}

/// Whether a value is a message of the conversation: under the role of its author, with
/// the content, the calls and the receipt that it has.
pub open spec fn tells(value: JsonView, message: TranscriptMessageView) -> bool {
    match message {
        TranscriptMessageView::User { content } => {
            &&& member(value, "role"@) == Some(JsonView::Text("user"@))
            &&& member(value, "content"@) == Some(JsonView::Text(content))
            &&& member(value, "tool_calls"@) is None
            &&& member(value, "tool_call_id"@) is None
        },
        TranscriptMessageView::Assistant { content, tool_calls } => {
            &&& member(value, "role"@) == Some(JsonView::Text("assistant"@))
            &&& member(value, "content"@) == Some(JsonView::Text(content))
            &&& member(value, "tool_call_id"@) is None
            &&& tool_calls.len() == 0 ==> member(value, "tool_calls"@) is None
            &&& tool_calls.len() > 0 ==> {
                &&& member(value, "tool_calls"@) matches Some(JsonView::Array(calls))
                &&& calls.len() == tool_calls.len()
                &&& forall|i: int|
                    0 <= i < tool_calls.len() ==> tells_call(#[trigger] calls[i], tool_calls[i])
            }
        },
        TranscriptMessageView::Tool { receipt } => {
            &&& member(value, "role"@) == Some(JsonView::Text("tool"@))
            &&& member(value, "tool_call_id"@) == Some(JsonView::Text(receipt.call_id))
            &&& member(value, "content"@) == Some(JsonView::Text(receipt_text(receipt)))
            &&& member(value, "tool_calls"@) is None
        },
    }
}

/// Whether a value is a part of the prompt, named in brackets above its text.
pub open spec fn instructs(value: JsonView, segment: PromptSegmentView) -> bool {
    &&& member(value, "role"@) == Some(JsonView::Text("system"@))
    &&& member(value, "content"@) == Some(
        JsonView::Text("["@ + segment.name + "]\n"@ + segment.text),
    )
}

/// Whether a value offers a tool.
pub open spec fn offers(value: JsonView, tool: ToolDefinitionView) -> bool {
    &&& member(value, "type"@) == Some(JsonView::Text("function"@))
    &&& member(value, "function"@) matches Some(function)
    &&& member(function, "name"@) == Some(JsonView::Text(tool.name))
    &&& member(function, "description"@) == Some(JsonView::Text(tool.description))
    &&& member(function, "parameters"@) == Some(tool.input_schema)
}

/// A function call is sent with the id, the name and the arguments of the call.
pub proof fn law_calls_are_sent_as_they_were_made(call: ToolCallView)
    ensures
        tells_call(sent_call(call), call),
{
    reveal_strlit("id");
    reveal_strlit("type");
    reveal_strlit("function");
    assert("id"@.len() == 2 && "type"@.len() == 4 && "function"@.len() == 8);
    reveal_strlit("name");
    reveal_strlit("arguments");
    assert("name"@.len() == 4 && "arguments"@.len() == 9);
}

/// A message is sent under the role of its author with what it says. The message for a
/// receipt names in its `tool_call_id` the call that the receipt answers.
pub proof fn law_messages_are_sent_as_they_were_said(message: TranscriptMessageView)
    ensures
        tells(sent_message(message), message),
{
    reveal_strlit("role");
    reveal_strlit("content");
    reveal_strlit("tool_calls");
    reveal_strlit("tool_call_id");
    assert("role"@.len() == 4 && "content"@.len() == 7 && "tool_calls"@.len() == 10
        && "tool_call_id"@.len() == 12);
    match message {
        TranscriptMessageView::Assistant { tool_calls, .. } => {
            assert forall|i: int| 0 <= i < tool_calls.len() implies tells_call(
                #[trigger] sent_calls(tool_calls)[i],
                tool_calls[i],
            ) by {
                law_calls_are_sent_as_they_were_made(tool_calls[i]);
            }
        },
        _ => {},
    }
}

/// A part of the prompt is sent under its name with its text.
pub proof fn law_prompt_is_sent_as_it_is(segment: PromptSegmentView)
    ensures
        instructs(system_message(segment), segment),
{
    reveal_strlit("role");
    reveal_strlit("content");
    assert("role"@.len() == 4 && "content"@.len() == 7);
}

/// A tool is offered with its name, its description and its schema.
pub proof fn law_tools_are_offered_as_they_are(tool: ToolDefinitionView)
    ensures
        offers(sent_tool(tool), tool),
{
    reveal_strlit("type");
    reveal_strlit("function");
    assert("type"@.len() == 4 && "function"@.len() == 8);
    reveal_strlit("name");
    reveal_strlit("description");
    reveal_strlit("parameters");
    assert("name"@.len() == 4 && "description"@.len() == 11 && "parameters"@.len() == 10);
}

/// A receipt is sent as the answer to the call that it is for: its `tool_call_id` is the id
/// that was sent with that call.
pub proof fn law_receipts_answer_their_call(
    content: Seq<char>,
    calls: Seq<ToolCallView>,
    at: int,
    receipt: ToolReceiptView,
)
    requires
        0 <= at < calls.len(),
        receipt.call_id == calls[at].id,
    ensures
        ({
            let asked = sent_message(TranscriptMessageView::Assistant { content, tool_calls: calls });
            let answered = sent_message(TranscriptMessageView::Tool { receipt });
            &&& member(asked, "tool_calls"@) matches Some(JsonView::Array(sent))
            &&& member(answered, "tool_call_id"@) is Some
            &&& member(answered, "tool_call_id"@) == member(sent[at], "id"@)
        }),
{
    law_messages_are_sent_as_they_were_said(
        TranscriptMessageView::Assistant { content, tool_calls: calls },
    );
    law_messages_are_sent_as_they_were_said(TranscriptMessageView::Tool { receipt });
    let asked = sent_message(TranscriptMessageView::Assistant { content, tool_calls: calls });
    assert(tells_call(member(asked, "tool_calls"@)->0->Array_0[at], calls[at]));
}

/// Two receipts of different calls never get the same `tool_call_id`.
pub proof fn law_receipts_of_different_calls_differ(one: ToolReceiptView, other: ToolReceiptView)
    requires
        one.call_id != other.call_id,
    ensures
        member(sent_message(TranscriptMessageView::Tool { receipt: one }), "tool_call_id"@)
            != member(
            sent_message(TranscriptMessageView::Tool { receipt: other }),
            "tool_call_id"@,
        ),
{
    law_messages_are_sent_as_they_were_said(TranscriptMessageView::Tool { receipt: one });
    law_messages_are_sent_as_they_were_said(TranscriptMessageView::Tool { receipt: other });
}

/// The messages of a request are the prompt, part by part, and then the conversation,
/// message by message, each in its order and nothing else. The tools are those of the
/// request, and the model is the configured one.
pub proof fn law_requests_hold_prompt_and_conversation(
    adapter: AdapterView,
    request: ModelRequestView,
)
    ensures
        ({
            let body = JsonView::Object(framed_body(adapter, request));
            let prompt = request.context.prompt;
            let said = request.context.messages;
            &&& member(body, "model"@) == Some(JsonView::Text(adapter.config.model))
            &&& member(body, "messages"@) matches Some(JsonView::Array(messages))
            &&& messages.len() == prompt.len() + said.len()
            &&& forall|i: int|
                0 <= i < prompt.len() ==> instructs(#[trigger] messages[i], prompt[i])
            &&& forall|i: int|
                prompt.len() <= i < messages.len() ==> tells(
                    #[trigger] messages[i],
                    said[i - prompt.len()],
                )
            &&& (request.tools.len() == 0 ==> member(body, "tools"@) is None)
            &&& (request.tools.len() > 0 ==> {
                &&& member(body, "tools"@) matches Some(JsonView::Array(tools))
                &&& tools.len() == request.tools.len()
                &&& forall|i: int|
                    0 <= i < tools.len() ==> offers(#[trigger] tools[i], request.tools[i])
            })
        }),
{
    reveal_strlit("model");
    reveal_strlit("tools");
    reveal_strlit("stream");
    reveal_strlit("messages");
    reveal_strlit("functions");
    reveal_strlit("tool_choice");
    reveal_strlit("function_call");
    reveal_strlit("stream_options");
    assert("model"@.len() == 5 && "tools"@.len() == 5 && "stream"@.len() == 6
        && "messages"@.len() == 8 && "functions"@.len() == 9 && "tool_choice"@.len() == 11
        && "function_call"@.len() == 13 && "stream_options"@.len() == 14);
    assert("model"@[0] != "tools"@[0]);
    let messages = sent_messages(request);
    let prompt = request.context.prompt;
    let said = request.context.messages;
    assert forall|i: int| 0 <= i < prompt.len() implies instructs(
        #[trigger] messages[i],
        prompt[i],
    ) by {
        assert(messages[i] == system_message(prompt[i]));
        law_prompt_is_sent_as_it_is(prompt[i]);
    }
    assert forall|i: int| prompt.len() <= i < messages.len() implies tells(
        #[trigger] messages[i],
        said[i - prompt.len()],
    ) by {
        assert(messages[i] == sent_message(said[i - prompt.len()]));
        law_messages_are_sent_as_they_were_said(said[i - prompt.len()]);
    }
    let tools = sent_tools(request.tools);
    assert forall|i: int| 0 <= i < tools.len() implies offers(
        #[trigger] tools[i],
        request.tools[i],
    ) by {
        law_tools_are_offered_as_they_are(request.tools[i]);
    }
}

/// A streamed request asks for the usage to be told, and one that is not streamed has no
/// word of streams. Every extension that is none of the library's own members is sent as it
/// is configured.
pub proof fn law_extensions_are_sent_as_configured(
    adapter: AdapterView,
    request: ModelRequestView,
    key: Seq<char>,
)
    requires
        key != "model"@,
        key != "messages"@,
        key != "tools"@,
        key != "functions"@,
        key != "function_call"@,
        key != "tool_choice"@,
        key != "stream"@,
        key != "stream_options"@,
    ensures
        ({
            let body = framed_body(adapter, request);
            &&& body.contains_key(key) == adapter.config.extra_body.contains_key(key)
            &&& body.contains_key(key) ==> body[key] == adapter.config.extra_body[key]
            &&& adapter.streaming == body.contains_key("stream"@)
            &&& adapter.streaming == body.contains_key("stream_options"@)
            &&& adapter.streaming ==> body["stream"@] == JsonView::Bool(true) && member(
                body["stream_options"@],
                "include_usage"@,
            ) == Some(JsonView::Bool(true))
            &&& request.tools.len() > 0 ==> body.contains_key("tool_choice"@)
                == adapter.config.extra_body.contains_key("tool_choice"@) && (body.contains_key(
                "tool_choice"@,
            ) ==> body["tool_choice"@] == adapter.config.extra_body["tool_choice"@])
        }),
{
    reveal_strlit("model");
    reveal_strlit("tools");
    reveal_strlit("stream");
    reveal_strlit("messages");
    reveal_strlit("functions");
    reveal_strlit("tool_choice");
    reveal_strlit("function_call");
    reveal_strlit("stream_options");
    assert("model"@.len() == 5 && "tools"@.len() == 5 && "stream"@.len() == 6
        && "messages"@.len() == 8 && "functions"@.len() == 9 && "tool_choice"@.len() == 11
        && "function_call"@.len() == 13 && "stream_options"@.len() == 14);
    assert("model"@[0] != "tools"@[0]);
}

/// A request is posted to the configured endpoint, within the configured time, with its body
/// unchanged. It is authorised with the configured key and no other, and names the
/// organization where one is configured.
pub proof fn law_requests_go_to_the_endpoint(
    config: OpenAiConfigView,
    body: Map<Seq<char>, JsonView>,
)
    ensures
        ({
            let request = http_request_of(config, body);
            &&& request.url == config.endpoint
            &&& request.timeout_seconds == config.timeout_seconds
            &&& request.body == JsonView::Object(body)
            &&& request.headers.contains_key("Content-Type"@) && request.headers["Content-Type"@]
                == "application/json"@
            &&& request.headers.contains_key("Authorization"@) == config.api_key is Some
            &&& config.api_key matches Some(key) ==> request.headers["Authorization"@]
                == "Bearer "@ + key
            &&& request.headers.contains_key("OpenAI-Organization"@) == config.organization is Some
            &&& config.organization matches Some(name) ==> request.headers["OpenAI-Organization"@]
                == name
        }),
{
    reveal_strlit("Content-Type");
    reveal_strlit("Authorization");
    reveal_strlit("OpenAI-Organization");
    assert("Content-Type"@.len() == 12 && "Authorization"@.len() == 13
        && "OpenAI-Organization"@.len() == 19);
}

/// Under a budget a request that names no cap gets the whole reservation as its cap, one that
/// names a cap within the reservation is sent as it is, and any other is refused for good.
pub proof fn law_caps_stay_within_the_reservation(
    budget: RequestBudget,
    body: Map<Seq<char>, JsonView>,
)
    ensures
        ({
            let modern = body.contains_key("max_completion_tokens"@);
            let legacy = body.contains_key("max_tokens"@);
            let named = if modern {
                body["max_completion_tokens"@]
            } else {
                body["max_tokens"@]
            };
            let fits = named matches JsonView::Integer(cap) && 0 < cap
                <= budget.reserved_output_tokens;
            match capped_body(budget, body) {
                Ok(capped) => {
                    &&& !(modern && legacy)
                    &&& modern || legacy ==> fits && capped == body
                    &&& !modern && !legacy ==> {
                        &&& capped.contains_key("max_completion_tokens"@)
                        &&& capped["max_completion_tokens"@] == JsonView::Integer(
                            budget.reserved_output_tokens as int,
                        )
                        &&& capped.remove("max_completion_tokens"@) == body
                    }
                },
                Err(error) => !error.retryable && (modern && legacy || ((modern || legacy)
                    && !fits)),
            }
        }),
{
    if !body.contains_key("max_completion_tokens"@) {
        assert(body.insert(
            "max_completion_tokens"@,
            JsonView::Integer(budget.reserved_output_tokens as int),
        ).remove("max_completion_tokens"@) =~= body);
    }
}

/// A counted request is admitted exactly where its input and the reserved output fit the
/// context window together. A refusal, and a failed count, is final.
pub proof fn law_admission_is_exact(budget: RequestBudget, input: u64, failure: ModelErrorView)
    requires
        usable_budget(budget),
    ensures
        admitted(budget, Ok(input)) is Ok <==> input + budget.reserved_output_tokens
            <= budget.context_window_tokens,
        admitted(budget, Ok(input)) matches Err(error) ==> !error.retryable,
        admitted(budget, Err(failure)) matches Err(error) && !error.retryable && error.message
            == failure.message,
{
}

// ---------------------------------------------------------------------------
// Answers
// ---------------------------------------------------------------------------

/// Why the model stopped is read from the word of the provider.
pub proof fn law_stop_reasons_are_read(word: Seq<char>)
    ensures
        stop_reason_of(Some(word)) == StopReason::EndTurn <==> word == "stop"@,
        stop_reason_of(Some(word)) == StopReason::ToolUse <==> (word == "tool_calls"@ || word
            == "function_call"@),
        stop_reason_of(Some(word)) == StopReason::MaxTokens <==> word == "length"@,
        stop_reason_of(None) == StopReason::Other,
{
    reveal_strlit("stop");
    reveal_strlit("tool_calls");
    reveal_strlit("function_call");
    reveal_strlit("length");
    assert("stop"@.len() == 4 && "tool_calls"@.len() == 10 && "function_call"@.len() == 13
        && "length"@.len() == 6);
}

/// Parts of a message are read one after the other: a part with a text adds that text, and
/// any other adds nothing.
pub proof fn law_parts_are_read_in_order(parts: Seq<JsonView>, part: JsonView)
    ensures
        content_of(Some(JsonView::Array(Seq::empty()))) == Seq::<char>::empty(),
        content_of(Some(JsonView::Array(parts.push(part)))) == content_of(
            Some(JsonView::Array(parts)),
        ) + (match member(part, "text"@) {
            Some(JsonView::Text(text)) => text,
            _ => match part {
                JsonView::Text(text) => text,
                _ => Seq::empty(),
            },
        }),
{
    assert(parts.push(part).drop_last() =~= parts);
}

/// A call of an answer has the id and the name that the provider gave it, and as arguments
/// the value that the provider sent, or the value of the text that it sent. Without an id, a
/// function, a name, or with a text that is no JSON, it is refused for good.
pub proof fn law_calls_are_read_as_they_came(value: JsonView)
    ensures
        ({
            let id = member(value, "id"@);
            let function = member(value, "function"@);
            let name = member(function->0, "name"@);
            let arguments = member(function->0, "arguments"@);
            let named = id matches Some(JsonView::Text(_)) && function is Some && (name matches Some(
                JsonView::Text(_),
            ));
            match call_of(value) {
                Ok(call) => {
                    &&& named
                    &&& id == Some(JsonView::Text(call.id))
                    &&& name == Some(JsonView::Text(call.name))
                    &&& match arguments {
                        Some(JsonView::Text(text)) => json_parse(text) == Ok::<
                            JsonView,
                            Seq<char>,
                        >(call.arguments),
                        Some(found) => call.arguments == found,
                        None => call.arguments == JsonView::Null,
                    }
                },
                Err(error) => !error.retryable && (!named || (arguments matches Some(
                    JsonView::Text(text),
                ) && json_parse(text) is Err)),
            }
        }),
{
}

proof fn lemma_calls_read(values: Seq<JsonView>, count: int)
    requires
        0 <= count <= values.len(),
    ensures
        calls_of(values, count) matches Ok(calls) ==> {
            &&& calls.len() == count
            &&& forall|i: int|
                0 <= i < count ==> call_of(values[i]) == Ok::<ToolCallView, ModelErrorView>(
                    #[trigger] calls[i],
                )
        },
        (calls_of(values, count) is Ok) == (forall|i: int|
            0 <= i < count ==> call_of(#[trigger] values[i]) is Ok),
        calls_of(values, count) matches Err(error) ==> !error.retryable,
    decreases count,
{
    if count > 0 {
        lemma_calls_read(values, count - 1);
        match calls_of(values, count - 1) {
            Ok(earlier) => match call_of(values[count - 1]) {
                Ok(call) => {
                    let calls = earlier.push(call);
                    assert forall|i: int| 0 <= i < count implies call_of(values[i]) == Ok::<
                        ToolCallView,
                        ModelErrorView,
                    >(#[trigger] calls[i]) by {
                        if i < count - 1 {
                            assert(calls[i] == earlier[i]);
                        }
                    }
                },
                Err(_) => {},
            },
            Err(_) => {},
        }
    }
}

/// The answer of the model is read from the first choice: its content, its calls one for one
/// and in their order, the reason for which it stopped, and the tokens that were counted.
pub proof fn law_answers_are_read_from_the_first_choice(body: JsonView)
    ensures
        response_of(body) matches Ok(response) ==> {
            &&& member(body, "error"@) is None
            &&& member(body, "choices"@) matches Some(JsonView::Array(choices))
            &&& choices.len() > 0
            &&& member(choices[0], "message"@) matches Some(message)
            &&& (member(message, "content"@) matches Some(JsonView::Text(text)) ==> response.content
                == text)
            &&& (member(message, "content"@) is None ==> response.content.len() == 0)
            &&& (member(message, "tool_calls"@) matches Some(JsonView::Array(calls))
                ==> response.tool_calls.len() == calls.len() && forall|i: int|
                0 <= i < calls.len() ==> call_of(calls[i]) == Ok::<ToolCallView, ModelErrorView>(
                    #[trigger] response.tool_calls[i],
                ))
            &&& (member(message, "tool_calls"@) is None ==> response.tool_calls.len() == 0)
            &&& (member(choices[0], "finish_reason"@) == Some(JsonView::Text("stop"@))
                ==> response.stop_reason == StopReason::EndTurn)
            &&& (member(choices[0], "finish_reason"@) == Some(JsonView::Text("tool_calls"@))
                ==> response.stop_reason == StopReason::ToolUse)
            &&& (member(choices[0], "finish_reason"@) == Some(JsonView::Text("length"@))
                ==> response.stop_reason == StopReason::MaxTokens)
            &&& (member(body, "usage"@) matches Some(usage) ==> {
                &&& (member(usage, "prompt_tokens"@) matches Some(JsonView::Integer(count))
                    ==> 0 <= count <= u64::MAX ==> response.usage.input_tokens == count)
                &&& (member(usage, "completion_tokens"@) matches Some(JsonView::Integer(count))
                    ==> 0 <= count <= u64::MAX ==> response.usage.output_tokens == count)
            })
            &&& (member(body, "usage"@) is None ==> response.usage.input_tokens == 0
                && response.usage.output_tokens == 0)
        },
        response_of(body) matches Err(error) ==> !error.retryable,
{
    reveal_strlit("stop");
    reveal_strlit("tool_calls");
    reveal_strlit("length");
    reveal_strlit("function_call");
    assert("stop"@.len() == 4 && "tool_calls"@.len() == 10 && "length"@.len() == 6
        && "function_call"@.len() == 13);
    match member(body, "choices"@) {
        Some(JsonView::Array(choices)) => {
            if choices.len() > 0 {
                match member(choices[0], "message"@) {
                    Some(message) => match member(message, "tool_calls"@) {
                        Some(JsonView::Array(calls)) => {
                            lemma_calls_read(calls, calls.len() as int);
                        },
                        _ => {},
                    },
                    None => {},
                }
            }
        },
        _ => {},
    }
}

/// An answer is refused only for an error of the provider, for want of a choice or a
/// message, or for a call that cannot be read.
pub proof fn law_readable_answers_are_read(body: JsonView, choices: Seq<JsonView>, message: JsonView)
    requires
        member(body, "error"@) is None,
        member(body, "choices"@) == Some(JsonView::Array(choices)),
        choices.len() > 0,
        member(choices[0], "message"@) == Some(message),
        member(message, "tool_calls"@) matches Some(JsonView::Array(calls)) ==> forall|i: int|
            0 <= i < calls.len() ==> call_of(#[trigger] calls[i]) is Ok,
    ensures
        response_of(body) is Ok,
{
    match member(message, "tool_calls"@) {
        Some(JsonView::Array(calls)) => {
            lemma_calls_read(calls, calls.len() as int);
        },
        _ => {},
    }
}

/// A transport that failed may be asked again, an answer that was refused may not, and an
/// answer that came is read from its body.
pub proof fn law_only_transports_are_tried_again(
    answer: Result<HttpResponseView, TransportErrorView>,
)
    ensures
        answer matches Ok(response) ==> completed(answer) == response_of(response.body),
        completed(answer) matches Err(error) ==> error.retryable == (answer is Err),
        answer is Err ==> completed(answer) is Err,
{
    match answer {
        Ok(response) => law_answers_are_read_from_the_first_choice(response.body),
        Err(_) => {},
    }
}

/// A call that was sent is read back as the call that it was, given that its arguments are
/// read back from their text.
pub proof fn law_sent_calls_are_read_back(call: ToolCallView)
    requires
        json_parse(json_text(call.arguments)) == Ok::<JsonView, Seq<char>>(call.arguments),
    ensures
        call_of(sent_call(call)) == Ok::<ToolCallView, ModelErrorView>(call),
{
    law_calls_are_sent_as_they_were_made(call);
}

/// A cancelled or abandoned request is neither sent nor answered. One that asks for a stream
/// is not sent through a transport that has none. Any other is, and its answer handed on.
pub proof fn law_cancelled_requests_are_not_answered(
    control: HttpControl,
    request: HttpRequestView,
    answer: Result<HttpResponseView, TransportErrorView>,
)
    ensures
        ({
            let stopped = control.cancelled || control.abandoned;
            let streams = member(request.body, "stream"@) == Some(JsonView::Bool(true));
            &&& plain_refusal(control, request) is Some <==> stopped || streams
            &&& stopped ==> plain_answer(answer, control) is Err
            &&& !stopped ==> plain_answer(answer, control) == answer
            &&& answer is Err ==> plain_answer(answer, control) == answer
        }),
{
}

// ---------------------------------------------------------------------------
// Asking
// ---------------------------------------------------------------------------

/// A request is sent as it was framed for the model request, to the configured endpoint, and its
/// result is read from what the transport answered.
pub proof fn law_requests_are_sent_and_read<T: HttpTransport, C: RequestTokenCounter>(
    adapter: AdapterView,
    transport: &T,
    counter: &C,
    request: ModelRequestView,
    result: Result<ModelResponseView, ModelErrorView>,
)
    requires
        adapter.request_budget is None,
        completes(adapter, transport, counter, request, result),
    ensures
        exists|sent: HttpRequest, answer: Result<HttpResponse, TransportError>|
            {
                &&& sent@.url == adapter.config.endpoint
                &&& sent@.timeout_seconds == adapter.config.timeout_seconds
                &&& sent@.body == JsonView::Object(framed_body(adapter, request))
                &&& #[trigger] call_ensures(T::post_json, (transport, sent), answer)
                &&& match answer {
                    Ok(response) => result == response_of(response@.body),
                    Err(_) => result matches Err(error) && error.retryable,
                }
            },
{
    let body = framed_body(adapter, request);
    let (sent, answer) = choose|sent: HttpRequest, answer: Result<HttpResponse, TransportError>|
        sent@ == http_request_of(adapter.config, body) && #[trigger] call_ensures(
            T::post_json,
            (transport, sent),
            answer,
        ) && result == completed(res_view(answer));
    assert(call_ensures(T::post_json, (transport, sent), answer));
}

/// Under a budget an answer comes only for a request whose body names a cap within the
/// reservation, whose tokens were counted on that very body, and which fits the window with them.
pub proof fn law_budgeted_answers_were_counted<T: HttpTransport, C: RequestTokenCounter>(
    adapter: AdapterView,
    budget: RequestBudget,
    transport: &T,
    counter: &C,
    request: ModelRequestView,
    response: ModelResponseView,
)
    requires
        adapter.request_budget == Some(budget),
        usable_budget(budget),
        completes(adapter, transport, counter, request, Ok(response)),
    ensures
        ({
            &&& capped_body(budget, framed_body(adapter, request)) matches Ok(body)
            &&& exists|json: Json, counted: Result<u64, ModelError>|
                {
                    &&& json@ == JsonView::Object(body)
                    &&& #[trigger] call_ensures(
                        C::count_input_tokens,
                        (counter, &json),
                        counted,
                    )
                    &&& counted matches Ok(input)
                    &&& input + budget.reserved_output_tokens <= budget.context_window_tokens
                }
            &&& exists|sent: HttpRequest, answer: Result<HttpResponse, TransportError>|
                sent@.body == JsonView::Object(body) && sent@.url == adapter.config.endpoint
                    && #[trigger] call_ensures(T::post_json, (transport, sent), answer)
                    && answer is Ok && Ok::<ModelResponseView, ModelErrorView>(response)
                    == response_of(answer->Ok_0@.body)
        }),
{
    let body = capped_body(budget, framed_body(adapter, request))->Ok_0;
    let counted = choose|counted: Result<u64, ModelError>| #[trigger]
        counts(counter, body, counted) && proceeds(
            adapter.config,
            budget,
            counted_view(counted),
            transport,
            body,
            Ok(response),
        );
    let json = choose|json: Json|
        json@ == JsonView::Object(body) && #[trigger] call_ensures(
            C::count_input_tokens,
            (counter, &json),
            counted,
        );
    assert(call_ensures(C::count_input_tokens, (counter, &json), counted));
    let (sent, answer) = choose|sent: HttpRequest, answer: Result<HttpResponse, TransportError>|
        sent@ == http_request_of(adapter.config, body) && #[trigger] call_ensures(
            T::post_json,
            (transport, sent),
            answer,
        ) && Ok::<ModelResponseView, ModelErrorView>(response) == completed(res_view(answer));
    assert(call_ensures(T::post_json, (transport, sent), answer));
}

/// A plain post is made only where it was not stopped before, and its reply is the answer only
/// where it was not stopped meanwhile.
pub proof fn law_stopped_posts_do_not_answer<T: HttpTransport, C: Fn() -> HttpControl>(
    transport: T,
    request: HttpRequest,
    control: C,
    answer: Result<HttpResponse, TransportError>,
)
    requires
        call_requires(control, ()),
        call_ensures(post_plainly::<T, C>, (&transport, request, &control), answer),
    ensures
        (forall|state: HttpControl| #[trigger]
            call_ensures(control, (), state) ==> state.cancelled || state.abandoned) ==> answer
            is Err,
        member(request@.body, "stream"@) == Some(JsonView::Bool(true)) ==> answer is Err,
        answer matches Ok(found) ==> exists|reply: Result<HttpResponse, TransportError>| #[trigger]
            call_ensures(T::post_json, (&transport, request), reply) && reply is Ok && reply->Ok_0@
                == found@,
{
}

} // verus!
