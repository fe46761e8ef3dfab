//! What archived outputs, drafts and metrics tell.

use vstd::prelude::*;
use vstd::utf8::*;

use crate::context::{
    CompiledContext, ContextCompiler, ContextError, ContextErrorView, ContextInput,
    ContextInputView,
};
use crate::json::{json_text, member, JsonView};
use crate::model::{ModelProgressEventView, ModelProgressView, RequestTimingsView};
use crate::output::{
    compiles, compiles_slimmed, component_of, hex_of, keeps, keeps_first, kept, oversized,
    page_action, page_bytes, page_json, page_of, page_request_of, page_schema, paths_of,
    reference_of, retained_of, retention_of, slimmed, slimmed_input, snapshot_check, PageView,
    RetainedOutput, Retention,
};
use crate::progress::{
    drafted, law_drafts_are_bounded, metrics_of, progressed, timings_value, ProgressView,
};
use crate::protocol::{
    EffectKind, RetrySafety, ToolCallView, ToolReceiptView, TranscriptMessageView,
};
use crate::datum::done_view;

verus! {

// ---------------------------------------------------------------------------
// Externalized outputs
// ---------------------------------------------------------------------------

/// Whether a value stands for an output of so many bytes that was archived under a call.
pub open spec fn refers_to(value: JsonView, call: Seq<char>, bytes: nat) -> bool {
    &&& member(value, "externalized_output"@) matches Some(told)
    &&& member(told, "call_id"@) == Some(JsonView::Text(call))
    &&& member(told, "total_bytes"@) == Some(JsonView::Integer(bytes as int))
    &&& member(told, "read_tool"@) == Some(JsonView::Text("read_output"@))
    &&& member(told, "format"@) == Some(JsonView::Text("json"@))
    &&& member(told, "version"@) == Some(JsonView::Integer(1))
}

/// A reference names the call and the size of what it stands for, and the tool to read it with.
pub proof fn law_references_name_their_output(call: Seq<char>, bytes: nat)
    ensures
        refers_to(reference_of(call, bytes), call, bytes),
{
    reveal_strlit("version");
    reveal_strlit("call_id");
    reveal_strlit("total_bytes");
    reveal_strlit("format");
    reveal_strlit("read_tool");
    reveal_strlit("note");
    assert("version"@.len() == 7 && "call_id"@.len() == 7 && "total_bytes"@.len() == 11
        && "format"@.len() == 6 && "read_tool"@.len() == 9 && "note"@.len() == 4);
    assert("version"@[0] != "call_id"@[0]);
}

/// References to outputs of different calls or of different sizes differ.
pub proof fn law_references_differ(
    call: Seq<char>,
    other: Seq<char>,
    bytes: nat,
    other_bytes: nat,
)
    requires
        call != other || bytes != other_bytes,
    ensures
        reference_of(call, bytes) != reference_of(other, other_bytes),
{
    law_references_name_their_output(call, bytes);
    law_references_name_their_output(other, other_bytes);
}

/// An output is archived exactly where its JSON text is longer than what may stay inline, unless
/// it is a page of an archived output. It is then replaced by a reference with its size.
pub proof fn law_long_outputs_are_archived(receipt: ToolReceiptView, inline_bytes: nat)
    ensures
        ({
            let message = TranscriptMessageView::Tool { receipt };
            let long = receipt.tool_name != "read_output"@ && (receipt.output matches Some(output)
                && encode_utf8(json_text(output)).len() > inline_bytes);
            let size = encode_utf8(json_text(receipt.output->0)).len();
            &&& !long ==> slimmed(message, inline_bytes) == message
            &&& long ==> {
                &&& slimmed(message, inline_bytes) matches TranscriptMessageView::Tool {
                    receipt: kept,
                }
                &&& kept.output matches Some(reference)
                &&& refers_to(reference, receipt.call_id, size)
                &&& kept.call_id == receipt.call_id
                &&& kept.tool_name == receipt.tool_name
                &&& kept.status == receipt.status
                &&& kept.action == receipt.action
                &&& kept.error == receipt.error
            }
            &&& long ==> oversized(receipt, inline_bytes) == Some(
                encode_utf8(json_text(receipt.output->0)),
            )
            &&& !long ==> oversized(receipt, inline_bytes) is None
        }),
{
    law_references_name_their_output(
        receipt.call_id,
        encode_utf8(json_text(receipt.output->0)).len(),
    );
}

/// Every output that is replaced is retained under its call, byte for byte, in the order of the
/// messages, and nothing else is.
pub proof fn law_replaced_outputs_are_retained(
    messages: Seq<TranscriptMessageView>,
    message: TranscriptMessageView,
    inline_bytes: nat,
)
    ensures
        retained_of(Seq::empty(), inline_bytes).len() == 0,
        (message matches TranscriptMessageView::Tool { receipt } && oversized(
            receipt,
            inline_bytes,
        ) is None) ==> retained_of(messages.push(message), inline_bytes) == retained_of(
            messages,
            inline_bytes,
        ),
        (message matches TranscriptMessageView::Tool { receipt } && oversized(
            receipt,
            inline_bytes,
        ) is Some) ==> retained_of(messages.push(message), inline_bytes) == retained_of(
            messages,
            inline_bytes,
        ).push(
            (
                message->receipt.call_id,
                encode_utf8(json_text(message->receipt.output->0)),
            ),
        ),
        !(message is Tool) ==> retained_of(messages.push(message), inline_bytes) == retained_of(
            messages,
            inline_bytes,
        ),
{
    assert(messages.push(message).drop_last() =~= messages);
}

/// The compiler is handed every message, in its place, under the same thread and turn.
pub proof fn law_every_message_is_handed_on(input: ContextInputView, inline_bytes: nat)
    ensures
        ({
            let handed = slimmed_input(input, inline_bytes);
            &&& handed.thread_id == input.thread_id
            &&& handed.turn_id == input.turn_id
            &&& handed.transcript.len() == input.transcript.len()
            &&& forall|i: int|
                0 <= i < input.transcript.len() ==> #[trigger] handed.transcript[i] == slimmed(
                    input.transcript[i],
                    inline_bytes,
                )
        }),
{
}

/// An output is published where there is none yet, kept where the same bytes are there, and
/// refused where others are or where it is too long.
pub proof fn law_outputs_are_published_once(
    limit: nat,
    thread: Seq<char>,
    call: Seq<char>,
    bytes: Seq<u8>,
    existing: Option<Seq<u8>>,
)
    requires
        component_of(thread) is Ok,
        component_of(call) is Ok,
    ensures
        retention_of(limit, thread, call, bytes, existing) == Ok::<Retention, ContextErrorView>(
            Retention::Publish,
        ) <==> bytes.len() <= limit && existing is None,
        retention_of(limit, thread, call, bytes, existing) == Ok::<Retention, ContextErrorView>(
            Retention::Keep,
        ) <==> bytes.len() <= limit && existing == Some(bytes),
{
}

/// A snapshot is read where it is a regular file within the limit.
pub proof fn law_only_bounded_files_are_read(regular: bool, length: nat, limit: nat)
    ensures
        snapshot_check(regular, length, limit) is Ok <==> regular && length <= limit,
{
}

/// An id is a path component where it has between one and ninety-six bytes: two hexadecimal
/// digits for each. The snapshot of a call lies in the directory of its thread.
pub proof fn law_snapshots_lie_in_their_thread(
    root: Seq<char>,
    thread: Seq<char>,
    call: Seq<char>,
)
    ensures
        component_of(thread) is Ok <==> 1 <= encode_utf8(thread).len() <= 96,
        component_of(thread) matches Ok(name) ==> name.len() == 2 * encode_utf8(thread).len(),
        paths_of(root, thread, call) is Ok <==> component_of(thread) is Ok && component_of(
            call,
        ) is Ok,
        paths_of(root, thread, call) matches Ok((directory, file)) ==> directory == root + "/"@
            + component_of(thread)->Ok_0 && file == directory + "/"@ + component_of(call)->Ok_0
            + ".json"@,
{
    lemma_hex_length(encode_utf8(thread));
}

proof fn lemma_hex_length(bytes: Seq<u8>)
    ensures
        hex_of(bytes).len() == 2 * bytes.len(),
    decreases bytes.len(),
{
    if bytes.len() > 0 {
        lemma_hex_length(bytes.drop_last());
    }
}

// ---------------------------------------------------------------------------
// Pages
// ---------------------------------------------------------------------------

/// The value of a page tells the call, the text, where to read on, how much there is, and whether
/// this is the end.
pub proof fn law_page_values_tell_the_page(call: Seq<char>, page: PageView)
    ensures
        ({
            let value = page_json(call, page);
            &&& member(value, "call_id"@) == Some(JsonView::Text(call))
            &&& member(value, "text"@) == Some(JsonView::Text(page.text))
            &&& member(value, "next_offset"@) == Some(JsonView::Integer(page.next_offset as int))
            &&& member(value, "total_bytes"@) == Some(JsonView::Integer(page.total_bytes as int))
            &&& member(value, "eof"@) == Some(
                JsonView::Bool(page.next_offset == page.total_bytes),
            )
        }),
{
    reveal_strlit("call_id");
    reveal_strlit("text");
    reveal_strlit("next_offset");
    reveal_strlit("total_bytes");
    reveal_strlit("eof");
    assert("call_id"@.len() == 7 && "text"@.len() == 4 && "next_offset"@.len() == 11
        && "total_bytes"@.len() == 11 && "eof"@.len() == 3);
    assert("next_offset"@[0] != "total_bytes"@[0]);
}

/// A page is refused where its size is out of bounds or it begins behind the end; else it tells
/// how much there is in all.
pub proof fn law_pages_are_bounded(snapshot: Seq<u8>, offset: nat, limit: nat)
    ensures
        limit < 4 || limit > 4096 || offset > snapshot.len() ==> page_of(snapshot, offset, limit)
            is Err,
        page_of(snapshot, offset, limit) matches Ok(page) ==> page.total_bytes == snapshot.len(),
        4 <= limit <= 4096 && offset == snapshot.len() ==> page_of(snapshot, offset, limit) == Ok::<
            PageView,
            ContextErrorView,
        >(
            PageView {
                text: Seq::empty(),
                next_offset: snapshot.len(),
                total_bytes: snapshot.len(),
            },
        ),
{
    if 4 <= limit <= 4096 && offset == snapshot.len() {
        let piece = page_bytes(snapshot, offset as int, limit);
        assert(piece =~= Seq::<u8>::empty());
        encode_utf8_valid_utf8(Seq::<char>::empty());
        assert(encode_utf8(Seq::<char>::empty()) =~= Seq::<u8>::empty());
        encode_utf8_decode_utf8(Seq::<char>::empty());
    }
}

/// A call for a page is prepared as it was asked for: the archived call, the offset, nought where
/// none is named, and the limit, two thousand and forty-eight where none is named. It changes
/// nothing, may be repeated, and is bound to its thread.
pub proof fn law_pages_are_prepared_as_asked(call: ToolCallView, thread_id: Seq<char>)
    requires
        usize::MAX >= 4096,
        page_action(call, thread_id) is Ok,
    ensures
        ({
            let prepared = page_action(call, thread_id)->Ok_0;
            let offset = match member(call.arguments, "offset"@) {
                Some(JsonView::Integer(number)) => number,
                _ => 0,
            };
            let limit = match member(call.arguments, "limit"@) {
                Some(JsonView::Integer(number)) => number,
                _ => 2048,
            };
            &&& prepared.call_id == call.id
            &&& prepared.action.tool_name == "read_output"@
            &&& prepared.action.effect == EffectKind::ReadOnly
            &&& prepared.action.retry_safety == RetrySafety::Safe
            &&& prepared.action.scope == Some(thread_id)
            &&& member(call.arguments, "call_id"@) matches Some(JsonView::Text(id))
            &&& 4 <= limit <= 4096
            &&& page_request_of(prepared.action, thread_id) == Ok::<
                (Seq<char>, int, int),
                Seq<char>,
            >((id, offset, limit))
        }),
{
    reveal_strlit("call_id");
    reveal_strlit("offset");
    reveal_strlit("limit");
    assert("call_id"@.len() == 7 && "offset"@.len() == 6 && "limit"@.len() == 5);
}

// ---------------------------------------------------------------------------
// Drafts and metrics
// ---------------------------------------------------------------------------

/// A draft grows by the texts of its request, one after the other, as long as they fit.
pub proof fn law_drafts_grow_by_their_texts(
    draft: ModelProgressEventView,
    event: ModelProgressEventView,
    previous: Seq<char>,
    text: Seq<char>,
)
    requires
        draft.progress == (ModelProgressView::TextDelta { text: previous }),
        draft.thread_id == event.thread_id,
        draft.turn_id == event.turn_id,
        draft.iteration == event.iteration,
    ensures
        ({
            let grown = drafted(Some(draft), event, text);
            &&& grown.thread_id == event.thread_id
            &&& grown.turn_id == event.turn_id
            &&& grown.iteration == event.iteration
            &&& grown.progress matches ModelProgressView::TextDelta { text: shown }
            &&& encode_utf8(previous + text).len() <= 65536 ==> shown
                == previous + text
        }),
{
    law_drafts_are_bounded(previous + text);
}

/// A start shows an empty draft of its request, a text grows the draft, and an end is added to the
/// requests that are done, of which the newest are kept. Only a failed write of metrics shows an
/// error.
pub proof fn law_progress_is_shown_as_it_comes(
    shown: ProgressView,
    event: ModelProgressEventView,
    write_error: Option<Seq<char>>,
)
    ensures
        ({
            let after = progressed(shown, event, write_error);
            &&& event.progress is Started ==> after.draft == Some(event) && after.completed
                == shown.completed && after.error == shown.error
            &&& event.progress is TextDelta ==> after.completed == shown.completed && after.error
                == shown.error && after.draft is Some
            &&& event.progress is Finished ==> {
                &&& after.draft == shown.draft
                &&& after.completed.len() > 0
                &&& after.completed.last() == event
                &&& shown.completed.len() < 16 ==> after.completed
                    == shown.completed.push(event)
                &&& after.completed.len() <= 16
                &&& write_error is None ==> after.error == shown.error
                &&& write_error matches Some(message) ==> after.error == Some(
                    "request metrics write failed: "@ + message,
                )
            }
        }),
{
}

/// The metrics of a finished request name it and its outcome, and tell each time that was measured,
/// null where none was. Events that are no end have none.
pub proof fn law_metrics_tell_the_request(
    event: ModelProgressEventView,
    timings: RequestTimingsView,
    outcome: Seq<char>,
)
    requires
        event.progress == (ModelProgressView::Finished { timings, outcome }),
    ensures
        ({
            &&& metrics_of(event) matches Some(value)
            &&& member(value, "version"@) == Some(JsonView::Integer(1))
            &&& member(value, "request"@) matches Some(request)
            &&& member(request, "thread_id"@) == Some(JsonView::Text(event.thread_id))
            &&& member(request, "turn_id"@) == Some(JsonView::Text(event.turn_id))
            &&& member(request, "iteration"@) == Some(JsonView::Integer(event.iteration as int))
            &&& member(request, "progress"@) matches Some(progress)
            &&& member(progress, "type"@) == Some(JsonView::Text("finished"@))
            &&& member(progress, "outcome"@) == Some(JsonView::Text(outcome))
            &&& member(progress, "timings"@) matches Some(times)
            &&& member(times, "total_ms"@) == Some(JsonView::Integer(timings.total_ms as int))
            &&& member(times, "dns_ms"@) == Some(told_time(timings.dns_ms))
            &&& member(times, "tcp_connect_ms"@) == Some(told_time(timings.tcp_connect_ms))
            &&& member(times, "tls_ms"@) == Some(told_time(timings.tls_ms))
            &&& member(times, "first_byte_ms"@) == Some(told_time(timings.first_byte_ms))
            &&& member(times, "first_text_ms"@) == Some(told_time(timings.first_text_ms))
        }),
{
    reveal_strlit("version");
    reveal_strlit("request");
    assert("version"@.len() == 7 && "request"@.len() == 7);
    assert("version"@[0] != "request"@[0]);
    reveal_strlit("thread_id");
    reveal_strlit("turn_id");
    reveal_strlit("iteration");
    reveal_strlit("progress");
    assert("thread_id"@.len() == 9 && "turn_id"@.len() == 7 && "iteration"@.len() == 9
        && "progress"@.len() == 8);
    assert("thread_id"@[0] != "iteration"@[0]);
    reveal_strlit("type");
    reveal_strlit("timings");
    reveal_strlit("outcome");
    assert("type"@.len() == 4 && "timings"@.len() == 7 && "outcome"@.len() == 7);
    assert("timings"@[0] != "outcome"@[0]);
    lemma_timings(timings);
}

/// A time, or null where none was measured.
pub open spec fn told_time(time: Option<u64>) -> JsonView {
    match time {
        Some(number) => JsonView::Integer(number as int),
        None => JsonView::Null,
    }
}

proof fn lemma_timings(timings: RequestTimingsView)
    ensures
        ({
            let times = timings_value(timings);
            &&& member(times, "total_ms"@) == Some(JsonView::Integer(timings.total_ms as int))
            &&& member(times, "dns_ms"@) == Some(told_time(timings.dns_ms))
            &&& member(times, "tcp_connect_ms"@) == Some(told_time(timings.tcp_connect_ms))
            &&& member(times, "tls_ms"@) == Some(told_time(timings.tls_ms))
            &&& member(times, "first_byte_ms"@) == Some(told_time(timings.first_byte_ms))
            &&& member(times, "first_text_ms"@) == Some(told_time(timings.first_text_ms))
        }),
{
    reveal_strlit("dns_ms");
    reveal_strlit("tcp_connect_ms");
    reveal_strlit("tls_ms");
    reveal_strlit("first_byte_ms");
    reveal_strlit("first_text_ms");
    reveal_strlit("total_ms");
    assert("dns_ms"@.len() == 6 && "tcp_connect_ms"@.len() == 14 && "tls_ms"@.len() == 6
        && "first_byte_ms"@.len() == 13 && "first_text_ms"@.len() == 13 && "total_ms"@.len() == 8);
    assert("dns_ms"@[0] != "tls_ms"@[0]);
    assert("first_byte_ms"@[6] != "first_text_ms"@[6]);
}

// ---------------------------------------------------------------------------
// Compiling with references
// ---------------------------------------------------------------------------

/// A context is compiled only once every output that is replaced was retained, and then from the
/// slimmed messages. Where one cannot be retained, its error is the answer.
pub proof fn law_contexts_are_compiled_behind_the_archive<
    C: ContextCompiler,
    K: Fn(RetainedOutput) -> Result<(), ContextError>,
>(
    inner: C,
    keep: K,
    input: ContextInputView,
    inline_bytes: nat,
    compiled: Result<CompiledContext, ContextError>,
    index: int,
)
    requires
        compiles_slimmed(inner, keep, input, inline_bytes, compiled),
        compiled is Ok,
        0 <= index < retained_of(input.transcript, inline_bytes).len(),
    ensures
        exists|given: RetainedOutput, done: Result<(), ContextError>|
            given@ == retained_of(input.transcript, inline_bytes)[index] && done is Ok
                && #[trigger] call_ensures(keep, (given,), done),
        exists|handed: ContextInput|
            handed@ == slimmed_input(input, inline_bytes) && #[trigger] call_ensures(
                C::compile,
                (&inner, handed),
                compiled,
            ),
{
    let outputs = retained_of(input.transcript, inline_bytes);
    let done = choose|done: Result<(), ContextErrorView>| #[trigger]
        keeps(keep, outputs, done) && match done {
            Ok(()) => compiles(inner, slimmed_input(input, inline_bytes), compiled),
            Err(error) => compiled matches Err(found) && found@ == error,
        };
    let count = choose|count: int| #[trigger]
        keeps_first(keep, outputs, count) && match done {
            Ok(()) => count == outputs.len(),
            Err(_) => count < outputs.len() && kept(keep, outputs[count], done),
        };
    assert(kept(keep, outputs[index], Ok(())));
    let (given, answer) = choose|given: RetainedOutput, answer: Result<(), ContextError>|
        given@ == outputs[index] && done_view(answer) == Ok::<(), ContextErrorView>(())
            && #[trigger] call_ensures(keep, (given,), answer);
    assert(call_ensures(keep, (given,), answer));
}

/// The model is told to name the call of an archived output, and may name an offset and a limit.
pub proof fn law_the_page_tool_asks_for_a_call()
    ensures
        ({
            let schema = page_schema();
            &&& member(schema, "required"@) == Some(
                JsonView::Array(seq![JsonView::Text("call_id"@)]),
            )
            &&& member(schema, "additionalProperties"@) == Some(JsonView::Bool(false))
            &&& member(schema, "properties"@) matches Some(properties)
            &&& member(properties, "call_id"@) is Some
            &&& member(properties, "offset"@) is Some
            &&& member(properties, "limit"@) is Some
        }),
{
    reveal_strlit("type");
    reveal_strlit("properties");
    reveal_strlit("required");
    reveal_strlit("additionalProperties");
    assert("type"@.len() == 4 && "properties"@.len() == 10 && "required"@.len() == 8
        && "additionalProperties"@.len() == 20);
    reveal_strlit("call_id");
    reveal_strlit("offset");
    reveal_strlit("limit");
    assert("call_id"@.len() == 7 && "offset"@.len() == 6 && "limit"@.len() == 5);
}

} // verus!
