//! What callers get. The laws of this module speak of the calls themselves: of what goes into a
//! call, or into several calls that belong together, and of what comes back.
use vstd::prelude::*;
use vstd::utf8::*;

use crate::context::{CompiledContext, ContextError, PromptSegment, ResolvedPath};
use crate::context_fs::{content_views, FsContextCompiler, FsContextError, SkillInfo};
use crate::context_laws::{law_contexts_hold_prompt_and_window, law_prompts_keep_their_layers};
use crate::datum::{list_view, res_view, views};
use crate::event::{EventEnvelope, RuntimeEventView};
use crate::json::{object_view, json_parse, member, Json, JsonView};
use crate::keyed::Keyed;
use crate::model::{
    ModelError, ModelRequest, ModelResponse, StopReason,
};
use crate::process::{
    resolved_view, CapturedPipe, ProcessError, ProcessOutput, ProcessRequest, ReadFileTool,
    ReadRequest, ShellTool, Supervision, WriteFileTool, WriteRequest, PathProbe,
};
use crate::process_laws::{
    law_cancelled_commands_have_no_output, law_file_values_hold_the_file,
    law_reads_are_prepared_as_asked, law_shell_commands_are_prepared_as_asked,
    law_shell_values_tell_the_outcome, law_writes_are_prepared_as_asked,
};
use crate::protocol::{PreparedToolCall, ToolCall, TranscriptMessage, TranscriptMessageView};
use crate::provider::{
    HttpRequest, HttpResponse, OpenAiCompatibleAdapter, TransportError, parse_response,
};
use crate::provider_laws::{
    instructs, law_answers_are_read_from_the_first_choice, law_only_transports_are_tried_again,
    law_requests_go_to_the_endpoint, law_requests_hold_prompt_and_conversation, offers, tells,
};
use crate::stream::{bytes_step, new_decoder, Decoder};
use crate::stream_laws::{
    all_frames, fragments_told, law_streamed_answers_say_what_the_frames_say, pieces, text_told,
};
use crate::tool::{ToolError, ToolOutput};
use crate::turn::{
    calls_fault, events_of, transcript_from_events, transcript_of, Action, ActionView, PhaseView,
    Reply, Turn, TurnFrame,
};
use crate::turn_step_laws::{law_transcript_is_the_conversation, messages_told, tells_message};
use crate::utf8::lossy_text;

verus! {

// ---------------------------------------------------------------------------
// Turns
// ---------------------------------------------------------------------------

/// The transcript that is rebuilt from the events of a thread has a message for each user
/// message, each answer and each receipt, with exactly what the event holds, in the order of the
/// events, and no other message.
pub proof fn law_rebuilt_transcripts_say_what_was_recorded(
    events: Vec<EventEnvelope>,
    transcript: Vec<TranscriptMessage>,
)
    requires
        call_ensures(transcript_from_events, (&events,), transcript),
    ensures
        ({
            let recorded = Seq::new(events@.len(), |i: int| events@[i]@.event);
            &&& transcript@.len() == messages_told(recorded)
            &&& forall|i: int|
                0 <= i < recorded.len() && tells_message(#[trigger] recorded[i]) ==> {
                    let place = messages_told(recorded.take(i)) as int;
                    &&& place < transcript@.len()
                    &&& (recorded[i] matches RuntimeEventView::UserMessage { content }
                        ==> transcript@[place]@ == TranscriptMessageView::User { content })
                    &&& (recorded[i] matches RuntimeEventView::AssistantMessage {
                        content,
                        tool_calls,
                        ..
                    } ==> transcript@[place]@ == TranscriptMessageView::Assistant {
                        content,
                        tool_calls,
                    })
                    &&& (recorded[i] matches RuntimeEventView::ToolReceiptRecorded { receipt }
                        ==> transcript@[place]@ == TranscriptMessageView::Tool { receipt })
                }
        }),
{
    let recorded = Seq::new(events@.len(), |i: int| events@[i]@.event);
    assert(recorded =~= events_of(views(events@)));
    law_transcript_is_the_conversation(recorded);
    assert(views(transcript@).len() == transcript@.len());
    assert forall|i: int| 0 <= i < transcript@.len() implies transcript@[i]@ == #[trigger]
        transcript_of(recorded)[i] by {
        assert(views(transcript@)[i] == transcript@[i]@);
    }
}

/// A turn begins by recording its input, word for word.
pub proof fn law_turns_begin_with_their_input(
    frame: TurnFrame,
    input: String,
    started: Turn,
    first: Action,
    greeted: Turn,
    second: Action,
)
    requires
        call_ensures(Turn::start, (frame, input), started),
        call_ensures(Turn::pending, (&started,), first),
        call_ensures(Turn::advance, (started, Reply::Persisted(Ok(()))), greeted),
        call_ensures(Turn::pending, (&greeted,), second),
    ensures
        started@.frame == frame@,
        first@ == ActionView::Persist(RuntimeEventView::TurnStarted),
        second@ == ActionView::Persist(RuntimeEventView::UserMessage { content: input@ }),
{
}

/// The answer of the model is made durable as it came, and the transcript of the turn then ends
/// with it.
pub proof fn law_turns_keep_the_answer(
    turn: Turn,
    response: ModelResponse,
    cancelled: bool,
    weighed: Turn,
    action: Action,
    told: Turn,
)
    requires
        turn@.phase == (PhaseView::Weighing { answer: Ok(response@) }),
        calls_fault(response@.tool_calls, turn@.seen) is None,
        call_ensures(Turn::advance, (turn, Reply::Polled(cancelled)), weighed),
        call_ensures(Turn::pending, (&weighed,), action),
        call_ensures(Turn::advance, (weighed, Reply::Persisted(Ok(()))), told),
    ensures
        action@ == ActionView::Persist(
            RuntimeEventView::AssistantMessage {
                content: response.content@,
                tool_calls: views(response.tool_calls@),
                stop_reason: response.stop_reason,
                usage: response.usage,
            },
        ),
        told@.transcript == turn@.transcript.push(
            TranscriptMessageView::Assistant {
                content: response.content@,
                tool_calls: views(response.tool_calls@),
            },
        ),
{
}

// ---------------------------------------------------------------------------
// Streams
// ---------------------------------------------------------------------------

/// What is read from the end of a stream says what its frames say: the text of all of them, and
/// for each call the id, the name and the arguments that the fragments of its index add up to.
pub proof fn law_ended_streams_are_read_whole(
    bytes: Seq<u8>,
    decoder: Decoder,
    ended: Result<Json, TransportError>,
    body: Json,
    read: Result<ModelResponse, ModelError>,
)
    requires
        bytes_step(new_decoder(), bytes).failure is None,
        decoder@ == bytes_step(new_decoder(), bytes).decoder,
        call_ensures(Decoder::finish, (decoder,), ended),
        ended == Ok::<Json, TransportError>(body),
        call_ensures(parse_response, (&body,), read),
    ensures
        read matches Ok(response) ==> {
            let fragments = fragments_told(all_frames(bytes));
            &&& response.content@ == text_told(all_frames(bytes))
            &&& forall|i: int|
                0 <= i < response.tool_calls@.len() ==> {
                    let call = (#[trigger] response.tool_calls@[i])@;
                    &&& call.id == pieces(fragments, i, "id"@)
                    &&& call.name == pieces(fragments, i, "name"@)
                    &&& json_parse(pieces(fragments, i, "arguments"@)) == Ok::<
                        JsonView,
                        Seq<char>,
                    >(call.arguments)
                }
        },
{
    law_streamed_answers_say_what_the_frames_say(bytes, body@);
    if read is Ok {
        let response = read->Ok_0;
        assert forall|i: int| 0 <= i < response.tool_calls@.len() implies response@.tool_calls[i]
            == (#[trigger] response.tool_calls@[i])@ by {}
        assert(response@.tool_calls.len() == response.tool_calls@.len());
    }
}

// ---------------------------------------------------------------------------
// Requests and answers
// ---------------------------------------------------------------------------

/// What is sent for a request holds the prompt and behind it the conversation, message for
/// message, and goes to the configured endpoint.
pub proof fn law_sent_requests_hold_the_conversation(
    adapter: OpenAiCompatibleAdapter,
    request: ModelRequest,
    made: Result<Keyed<Json>, ModelError>,
    body: Keyed<Json>,
    sent: HttpRequest,
)
    requires
        adapter@.request_budget is None,
        call_ensures(OpenAiCompatibleAdapter::final_body, (&adapter, &request), made),
        made == Ok::<Keyed<Json>, ModelError>(body),
        call_ensures(OpenAiCompatibleAdapter::http_request, (&adapter, body), sent),
    ensures
        ({
            let prompt = request@.context.prompt;
            let said = request@.context.messages;
            &&& sent@.url == adapter@.config.endpoint
            &&& member(sent@.body, "model"@) == Some(JsonView::Text(adapter@.config.model))
            &&& member(sent@.body, "messages"@) matches Some(JsonView::Array(messages))
            &&& messages.len() == prompt.len() + said.len()
            &&& forall|i: int|
                0 <= i < prompt.len() ==> instructs(#[trigger] messages[i], prompt[i])
            &&& forall|i: int|
                prompt.len() <= i < messages.len() ==> tells(
                    #[trigger] messages[i],
                    said[i - prompt.len()],
                )
            &&& (request@.tools.len() > 0 ==> {
                &&& member(sent@.body, "tools"@) matches Some(JsonView::Array(tools))
                &&& tools.len() == request@.tools.len()
                &&& forall|i: int|
                    0 <= i < tools.len() ==> offers(#[trigger] tools[i], request@.tools[i])
            })
        }),
{
    law_requests_hold_prompt_and_conversation(adapter@, request@);
    law_requests_go_to_the_endpoint(adapter@.config, object_view(body));
}

/// A receipt is sent under the id of the call that it answers, and two receipts of different
/// calls never under the same.
pub proof fn law_sent_receipts_name_their_calls(
    adapter: OpenAiCompatibleAdapter,
    request: ModelRequest,
    made: Result<Keyed<Json>, ModelError>,
    body: Keyed<Json>,
    one: int,
    other: int,
)
    requires
        adapter@.request_budget is None,
        call_ensures(OpenAiCompatibleAdapter::final_body, (&adapter, &request), made),
        made == Ok::<Keyed<Json>, ModelError>(body),
        0 <= one < request@.context.messages.len(),
        0 <= other < request@.context.messages.len(),
        request@.context.messages[one] is Tool,
        request@.context.messages[other] is Tool,
    ensures
        ({
            let prompt = request@.context.prompt.len();
            let said = request@.context.messages;
            &&& member(JsonView::Object(object_view(body)), "messages"@) matches Some(
                JsonView::Array(messages),
            )
            &&& member(messages[prompt + one], "tool_call_id"@) == Some(
                JsonView::Text(said[one]->receipt.call_id),
            )
            &&& said[one]->receipt.call_id != said[other]->receipt.call_id ==> member(
                messages[prompt + one],
                "tool_call_id"@,
            ) != member(messages[prompt + other], "tool_call_id"@)
        }),
{
    law_requests_hold_prompt_and_conversation(adapter@, request@);
    let sent = member(JsonView::Object(object_view(body)), "messages"@)->0->Array_0;
    let prompt = request@.context.prompt.len();
    assert(tells(sent[prompt + one], request@.context.messages[one]));
    assert(tells(sent[prompt + other], request@.context.messages[other]));
}

/// What is answered comes from the first choice of the reply; a transport that failed gives an
/// error that may be tried again, and nothing else does.
pub proof fn law_replies_become_answers(
    adapter: OpenAiCompatibleAdapter,
    reply: Result<HttpResponse, TransportError>,
    answer: Result<ModelResponse, ModelError>,
)
    requires
        call_ensures(OpenAiCompatibleAdapter::conclude, (&adapter, reply), answer),
    ensures
        answer matches Err(error) ==> error.retryable == (reply is Err),
        reply is Err ==> answer is Err,
        answer matches Ok(response) ==> {
            let body = reply->Ok_0@.body;
            &&& member(body, "choices"@) matches Some(JsonView::Array(choices))
            &&& choices.len() > 0
            &&& member(choices[0], "message"@) matches Some(message)
            &&& (member(message, "content"@) matches Some(JsonView::Text(text))
                ==> response.content@ == text)
            &&& (member(message, "tool_calls"@) matches Some(JsonView::Array(calls))
                ==> response.tool_calls@.len() == calls.len() && forall|i: int|
                0 <= i < calls.len() ==> (member(calls[i], "id"@) == Some(
                    JsonView::Text((#[trigger] response.tool_calls@[i])@.id),
                )))
            &&& (member(choices[0], "finish_reason"@) == Some(JsonView::Text("stop"@))
                ==> response.stop_reason == StopReason::EndTurn)
        },
{
    law_only_transports_are_tried_again(res_view(reply));
    if answer is Ok {
        let body = reply->Ok_0@.body;
        let response = answer->Ok_0;
        law_answers_are_read_from_the_first_choice(body);
        let message = member(member(body, "choices"@)->0->Array_0[0], "message"@)->0;
        assert(response@.tool_calls.len() == response.tool_calls@.len());
        match member(message, "tool_calls"@) {
            Some(JsonView::Array(calls)) => {
                assert forall|i: int| 0 <= i < calls.len() implies (member(calls[i], "id"@) == Some(
                    JsonView::Text((#[trigger] response.tool_calls@[i])@.id),
                )) by {
                    assert(response@.tool_calls[i] == response.tool_calls@[i]@);
                    crate::provider_laws::law_calls_are_read_as_they_came(calls[i]);
                }
            },
            _ => {},
        }
    }
}

// ---------------------------------------------------------------------------
// Prompts and contexts
// ---------------------------------------------------------------------------

/// A compiled prompt begins with the configured stable segments, in their order, and ends with
/// the configured volatile ones. Between them stand the rules and the selected skills.
pub proof fn law_compiled_prompts_keep_the_configuration(
    compiler: FsContextCompiler,
    rules: Result<Vec<PromptSegment>, ContextError>,
    skills: Vec<SkillInfo>,
    contents: Vec<Result<String, String>>,
    prompt: Result<Vec<PromptSegment>, FsContextError>,
)
    requires
        contents@.len() == compiler.config.selected_skills.keys().len(),
        call_ensures(
            FsContextCompiler::compile_prompt,
            (&compiler, rules, &skills, &contents),
            prompt,
        ),
    ensures
        prompt matches Ok(found) ==> {
            let stable = views(compiler.config.stable_segments@);
            let volatile = views(compiler.config.volatile_segments@);
            let segments = views(found@);
            &&& rules matches Ok(ruled)
            &&& segments.len() >= stable.len() + ruled@.len() + volatile.len()
            &&& segments.take(stable.len() as int) == stable
            &&& segments.skip(segments.len() - volatile.len()) == volatile
            &&& segments.subrange(
                stable.len() as int,
                (stable.len() + ruled@.len()) as int,
            ) == views(ruled@)
        },
        rules is Err ==> prompt is Err,
{
    match prompt {
        Ok(found) => {
            law_prompts_keep_their_layers(
                views(compiler.config.stable_segments@),
                list_view(rules),
                views(skills@),
                compiler.config.selected_skills.keys(),
                content_views(contents@),
                views(compiler.config.volatile_segments@),
                views(found@),
            );
            assert(views(rules->Ok_0@).len() == rules->Ok_0@.len());
        },
        Err(_) => {},
    }
}

/// A compiled context begins with the prompt and holds an end of the transcript: all of it, or
/// what is left behind the groups that the prompt then tells were left out.
pub proof fn law_compiled_contexts_hold_the_transcript(
    compiler: FsContextCompiler,
    prompt: Result<Vec<PromptSegment>, FsContextError>,
    transcript: Vec<TranscriptMessage>,
    sizes: Vec<usize>,
    compiled: Result<CompiledContext, ContextError>,
)
    requires
        sizes@.len() == transcript@.len(),
        transcript@.len() <= usize::MAX,
        call_ensures(
            FsContextCompiler::compile,
            (&compiler, prompt, transcript, &sizes),
            compiled,
        ),
    ensures
        compiled matches Ok(context) ==> {
            let said = views(transcript@);
            &&& prompt matches Ok(segments)
            &&& context@.prompt.len() >= segments@.len()
            &&& context@.prompt.take(segments@.len() as int) == views(segments@)
            &&& context@.messages.len() <= said.len()
            &&& context@.messages == said.skip(said.len() - context@.messages.len())
            &&& context@.prompt.len() == segments@.len() ==> context@.messages == said
            &&& compiler.config.max_transcript_groups is None ==> context@.messages == said
        },
        prompt is Err ==> compiled is Err,
        prompt is Ok && compiler.config.max_characters is None ==> compiled is Ok,
{
    assert(views(transcript@).len() == transcript@.len());
    law_contexts_hold_prompt_and_window(
        list_view(prompt),
        views(transcript@),
        sizes@,
        compiler.config.max_transcript_groups,
        compiler.config.max_characters,
    );
    if prompt is Ok {
        assert(views(prompt->Ok_0@).len() == prompt->Ok_0@.len());
    }
}

// ---------------------------------------------------------------------------
// Tools
// ---------------------------------------------------------------------------

/// The value of a finished command has its exit code as a number, or null if it has none, and so
/// the values of two commands that ended with different exit codes differ.
pub proof fn law_finished_commands_tell_their_exit_code(
    tool: ShellTool,
    one: ProcessOutput,
    other: ProcessOutput,
    first: Result<ToolOutput, ToolError>,
    second: Result<ToolOutput, ToolError>,
)
    requires
        call_ensures(ShellTool::outcome, (&tool, Ok(one)), first),
        call_ensures(ShellTool::outcome, (&tool, Ok(other)), second),
    ensures
        ({
            &&& first matches Ok(told)
            &&& second matches Ok(also)
            &&& member(told@.value, "exit_code"@) == Some(
                match one.exit_code {
                    Some(code) => JsonView::Integer(code as int),
                    None => JsonView::Null,
                },
            )
            &&& member(told@.value, "stdout"@) == Some(JsonView::Text(one.stdout@))
            &&& member(told@.value, "stderr"@) == Some(JsonView::Text(one.stderr@))
            &&& member(told@.value, "timed_out"@) == Some(JsonView::Bool(one.timed_out))
            &&& one.exit_code != other.exit_code ==> told@.value != also@.value
            &&& one.stdout@ != other.stdout@ ==> told@.value != also@.value
            &&& one.stderr@ != other.stderr@ ==> told@.value != also@.value
        }),
{
    law_shell_values_tell_the_outcome(one@);
    law_shell_values_tell_the_outcome(other@);
}

/// What a process left behind comes out as it was: its exit code, both outputs as text, and
/// whether its time ran out. A cancelled one has no output.
pub proof fn law_ended_processes_tell_what_they_left(
    watch: Supervision,
    exit_code: Option<i32>,
    stdout: CapturedPipe,
    stderr: CapturedPipe,
    output: Result<ProcessOutput, ProcessError>,
)
    requires
        call_ensures(Supervision::output, (&watch, exit_code, &stdout, &stderr), output),
    ensures
        output is Err <==> watch.cancelled,
        output matches Ok(found) ==> found.exit_code == exit_code && found.stdout@ == lossy_text(
            stdout@.retained,
        ) && found.stderr@ == lossy_text(stderr@.retained) && found.timed_out == watch.timed_out,
{
    law_cancelled_commands_have_no_output(
        Err(crate::process::ProcessErrorView::Cancelled),
        watch,
        exit_code,
        stdout@,
        stderr@,
    );
}

/// A shell command runs as it was asked: the command of the call, in the workspace.
pub proof fn law_asked_commands_run_in_the_workspace(
    tool: ShellTool,
    call: ToolCall,
    prepared: Result<PreparedToolCall, ToolError>,
    ready: PreparedToolCall,
    request: Option<ProcessRequest>,
)
    requires
        tool.limit() >= 1,
        call_ensures(ShellTool::prepare, (&tool, &call), prepared),
        prepared == Ok::<PreparedToolCall, ToolError>(ready),
        call_ensures(ShellTool::request, (&tool, &ready), request),
    ensures
        ready@.call_id == call@.id,
        ({
            &&& request matches Some(found)
            &&& member(call@.arguments, "command"@) == Some(JsonView::Text(found.command@))
            &&& found.working_directory@ == tool.root().shown
            &&& 1 <= found.timeout_ms <= tool.limit()
        }),
{
    law_shell_commands_are_prepared_as_asked(call@, tool.root(), tool.limit());
}

/// A file is read as it was asked: where the path of the call leads, and what is told of it is
/// what it holds, byte for byte.
pub proof fn law_asked_files_are_read(
    tool: ReadFileTool,
    call: ToolCall,
    resolved: Result<ResolvedPath, String>,
    is_file: bool,
    prepared: Result<PreparedToolCall, ToolError>,
    ready: PreparedToolCall,
    asked: Result<ReadRequest, ToolError>,
    request: ReadRequest,
    bytes: Vec<u8>,
    output: Result<ToolOutput, ToolError>,
)
    requires
        call_ensures(ReadFileTool::prepare, (&tool, &call, resolved, is_file), prepared),
        prepared == Ok::<PreparedToolCall, ToolError>(ready),
        call_ensures(ReadFileTool::request, (&tool, &ready, false), asked),
        asked == Ok::<ReadRequest, ToolError>(request),
        call_ensures(ReadFileTool::outcome, (&tool, &request, &bytes), output),
    ensures
        ready@.call_id == call@.id,
        is_file,
        resolved matches Ok(place) && request.path@ == place.shown@,
        request.maximum_bytes == tool.limit(),
        output is Ok <==> bytes@.len() <= tool.limit() && valid_utf8(bytes@),
        output matches Ok(told) ==> {
            &&& member(told@.value, "path"@) == Some(JsonView::Text(resolved->Ok_0.shown@))
            &&& member(told@.value, "content"@) matches Some(JsonView::Text(content))
            &&& encode_utf8(content) == bytes@
        },
{
    law_reads_are_prepared_as_asked(
        call@,
        tool.root(),
        tool.limit(),
        resolved_view(resolved),
        is_file,
    );
    law_file_values_hold_the_file(request.path@, bytes@, request.maximum_bytes);
}

/// A file is written as it was asked: under the path of the call in the workspace, with the
/// content of the call.
pub proof fn law_asked_files_are_written(
    tool: WriteFileTool,
    call: ToolCall,
    ancestors: Vec<PathProbe>,
    existing: PathProbe,
    prepared: Result<PreparedToolCall, ToolError>,
    ready: PreparedToolCall,
    asked: Result<WriteRequest, ToolError>,
)
    requires
        tool.root().shown.len() > 0,
        tool.root().shown.last() != '/',
        call_ensures(WriteFileTool::prepare, (&tool, &call, &ancestors, &existing), prepared),
        prepared == Ok::<PreparedToolCall, ToolError>(ready),
        call_ensures(WriteFileTool::request, (&tool, &ready, false), asked),
    ensures
        ready@.call_id == call@.id,
        ({
            &&& asked matches Ok(request)
            &&& member(call@.arguments, "path"@) matches Some(JsonView::Text(path))
            &&& request.path@ == tool.root().shown + "/"@ + path
            &&& member(call@.arguments, "content"@) == Some(JsonView::Text(request.content@))
            &&& request.create_directories == (member(call@.arguments, "create_directories"@)
                == Some(JsonView::Bool(true)))
        }),
{
    law_writes_are_prepared_as_asked(
        call@,
        tool.root(),
        tool.limit(),
        views(ancestors@),
        existing@,
    );
}

} // verus!
