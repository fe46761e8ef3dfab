//! Decoding a streamed response.

use vstd::prelude::*;
use vstd::string::*;

use crate::datum::{lemma_views_push, opt_view, res_view, views, Datum};
use crate::json::{
    json_parse, json_text, lemma_array, member, parse, text_json, Json, JsonView,
};
use crate::provider::{
    get_unsigned, make_pair, make_triple, pair_object, triple_object, unsigned_member,
    TransportError, TransportErrorView,
};
use crate::text::{
    byte_len, chars_of, same_text, slice_text, strip_prefix, trim, trim_of, without_prefix,
};
use crate::utf8::decode;
use vstd::utf8::*;

verus! {

/// The greatest size of a line and of an event of a stream.
pub const MAX_FRAME: usize = 1_048_576;

/// A tool call as far as it has arrived.
#[derive(Debug, PartialEq, Eq)]
pub struct StreamCall {
    pub id: String,
    pub name: String,
    pub arguments: String,
}

/// The model of [`StreamCall`].
#[verifier::ext_equal]
pub ghost struct StreamCallView {
    pub id: Seq<char>,
    pub name: Seq<char>,
    pub arguments: Seq<char>,
}

impl View for StreamCall {
    type V = StreamCallView;

    open spec fn view(&self) -> StreamCallView {
        StreamCallView {
            id: self.id@,
            name: self.name@,
            arguments: self.arguments@,
        }
    }
}

impl Datum for StreamCall {
    fn snapshot(&self) -> (copy: Self) {
        StreamCall {
            id: self.id.snapshot(),
            name: self.name.snapshot(),
            arguments: self.arguments.snapshot(),
        }
    }

    fn same(&self, other: &Self) -> (equal: bool) {
        self.id.same(&other.id) && self.name.same(&other.name)
            && self.arguments.same(&other.arguments)
    }
}

impl Clone for StreamCall {
    fn clone(&self) -> (copy: Self)
        ensures
            copy@ == self@,
    {
        self.snapshot()
    }
}

/// The state of a decoder.
#[verifier::ext_equal]
pub ghost struct DecoderView {
    /// The bytes of the line that has not ended.
    pub pending: Seq<u8>,
    /// The data of the event that has not ended.
    pub data: Seq<char>,
    pub content: Seq<char>,
    /// The tool calls by their index.
    pub calls: Seq<Option<StreamCallView>>,
    pub finish_reason: Option<Seq<char>>,
    pub usage: JsonView,
    pub done: bool,
}

/// A step of a decoder: its state afterwards, the texts that it showed, and whether the
/// stream can go on.
#[verifier::ext_equal]
pub ghost struct DecodeStep {
    pub decoder: DecoderView,
    pub texts: Seq<Seq<char>>,
    pub failure: Option<Seq<char>>,
}

/// A step that goes on.
pub open spec fn going(decoder: DecoderView, texts: Seq<Seq<char>>) -> DecodeStep {
    DecodeStep { decoder, texts, failure: None }
}

/// A step that fails.
pub open spec fn failing(
    decoder: DecoderView,
    texts: Seq<Seq<char>>,
    message: Seq<char>,
) -> DecodeStep {
    DecodeStep { decoder, texts, failure: Some(message) }
}

/// The member of an object, unless it is null.
pub open spec fn present(value: JsonView, key: Seq<char>) -> Option<JsonView> {
    match member(value, key) {
        Some(JsonView::Null) => None,
        found => found,
    }
}

/// A tool call of which nothing has arrived.
pub open spec fn empty_call() -> StreamCallView {
    StreamCallView { id: Seq::empty(), name: Seq::empty(), arguments: Seq::empty() }
}

/// A tool call with one more fragment, or the fragment's part up to its fault.
pub open spec fn collected(call: StreamCallView, fragment: JsonView) -> (
    StreamCallView,
    Option<Seq<char>>,
) {
    match present(fragment, "id"@) {
        Some(JsonView::Text(id)) => collected_type(
            StreamCallView { id: call.id + id, ..call },
            fragment,
        ),
        Some(_) => (call, Some("invalid stream call id"@)),
        None => collected_type(call, fragment),
    }
}

/// A tool call whose identifier was taken from a fragment.
pub open spec fn collected_type(call: StreamCallView, fragment: JsonView) -> (
    StreamCallView,
    Option<Seq<char>>,
) {
    match present(fragment, "type"@) {
        Some(kind) => if kind == JsonView::Text("function"@) {
            collected_function(call, fragment)
        } else {
            (call, Some("unsupported streamed tool type"@))
        },
        None => collected_function(call, fragment),
    }
}

/// A tool call whose type was checked in a fragment.
pub open spec fn collected_function(call: StreamCallView, fragment: JsonView) -> (
    StreamCallView,
    Option<Seq<char>>,
) {
    match member(fragment, "function"@) {
        None => (call, None),
        Some(function) => match present(function, "name"@) {
            Some(JsonView::Text(name)) => collected_arguments(
                StreamCallView { name: call.name + name, ..call },
                function,
            ),
            Some(_) => (call, Some("invalid streamed function name"@)),
            None => collected_arguments(call, function),
        },
    }
}

/// A tool call whose name was taken from a fragment.
pub open spec fn collected_arguments(call: StreamCallView, function: JsonView) -> (
    StreamCallView,
    Option<Seq<char>>,
) {
    match present(function, "arguments"@) {
        Some(JsonView::Text(arguments)) => (
            StreamCallView { arguments: call.arguments + arguments, ..call },
            None,
        ),
        Some(_) => (call, Some("invalid streamed arguments fragment"@)),
        None => (call, None),
    }
}

/// The call under an index, or an empty one.
pub open spec fn call_at(calls: Seq<Option<StreamCallView>>, index: int) -> StreamCallView {
    if 0 <= index < calls.len() {
        match calls[index] {
            Some(call) => call,
            None => empty_call(),
        }
    } else {
        empty_call()
    }
}

/// The calls with a call under an index.
pub open spec fn with_call(
    calls: Seq<Option<StreamCallView>>,
    index: int,
    call: StreamCallView,
) -> Seq<Option<StreamCallView>> {
    if 0 <= index < calls.len() {
        calls.update(index, Some(call))
    } else {
        calls + Seq::new((index - calls.len()) as nat, |i: int| None) + seq![Some(call)]
    }
}

/// One fragment of a tool call.
pub open spec fn call_step(decoder: DecoderView, fragment: JsonView) -> DecodeStep {
    match unsigned_member(fragment, "index"@) {
        None => failing(decoder, Seq::empty(), "stream tool index must be below 128"@),
        Some(index) => if index >= 128 {
            failing(decoder, Seq::empty(), "stream tool index must be below 128"@)
        } else {
            let (call, failure) = collected(call_at(decoder.calls, index as int), fragment);
            DecodeStep {
                decoder: DecoderView {
                    calls: with_call(decoder.calls, index as int, call),
                    ..decoder
                },
                texts: Seq::empty(),
                failure,
            }
        },
    }
}

/// The fragments of tool calls from `at` on, up to the first fault.
pub open spec fn calls_step(decoder: DecoderView, fragments: Seq<JsonView>, at: int) -> DecodeStep
    decreases fragments.len() - at,
{
    if at < 0 || at >= fragments.len() {
        going(decoder, Seq::empty())
    } else {
        let step = call_step(decoder, fragments[at]);
        if step.failure is Some {
            step
        } else {
            calls_step(step.decoder, fragments, at + 1)
        }
    }
}

/// The text of a delta.
pub open spec fn text_step(decoder: DecoderView, delta: JsonView) -> DecodeStep {
    match present(delta, "content"@) {
        None => going(decoder, Seq::empty()),
        Some(JsonView::Text(text)) => if text.len() == 0 {
            going(decoder, Seq::empty())
        } else {
            going(DecoderView { content: decoder.content + text, ..decoder }, seq![text])
        },
        Some(_) => failing(decoder, Seq::empty(), "stream text delta must be a string"@),
    }
}

/// The tool calls of a delta.
pub open spec fn tools_step(decoder: DecoderView, delta: JsonView) -> DecodeStep {
    if member(delta, "function_call"@) is Some {
        failing(decoder, Seq::empty(), "legacy streamed function_call is unsupported"@)
    } else {
        match member(delta, "tool_calls"@) {
            None => going(decoder, Seq::empty()),
            Some(JsonView::Array(fragments)) => calls_step(decoder, fragments, 0),
            Some(_) => failing(decoder, Seq::empty(), "stream tool_calls must be an array"@),
        }
    }
}

/// A step after another one, with what both showed. A failed step has no next one.
pub open spec fn followed(first: DecodeStep, second: DecodeStep) -> DecodeStep {
    if first.failure is Some {
        first
    } else {
        DecodeStep {
            decoder: second.decoder,
            texts: first.texts + second.texts,
            failure: second.failure,
        }
    }
}

/// A delta: its text is shown before its tool calls are looked at.
pub open spec fn delta_step(decoder: DecoderView, delta: JsonView) -> DecodeStep {
    let first = text_step(decoder, delta);
    followed(first, tools_step(first.decoder, delta))
}

/// The finish reason of a choice.
pub open spec fn reason_step(decoder: DecoderView, choice: JsonView) -> DecodeStep {
    match present(choice, "finish_reason"@) {
        None => going(decoder, Seq::empty()),
        Some(JsonView::Text(reason)) => going(
            DecoderView { finish_reason: Some(reason), ..decoder },
            Seq::empty(),
        ),
        Some(_) => failing(decoder, Seq::empty(), "invalid stream finish reason"@),
    }
}

/// The choice of a frame.
pub open spec fn choice_step(decoder: DecoderView, choice: JsonView) -> DecodeStep {
    if unsigned_member(choice, "index"@) != Some(0u64) {
        failing(decoder, Seq::empty(), "unexpected stream choice index"@)
    } else if decoder.finish_reason is Some {
        failing(decoder, Seq::empty(), "choice data followed its finish reason"@)
    } else {
        let first = match member(choice, "delta"@) {
            Some(delta) => delta_step(decoder, delta),
            None => going(decoder, Seq::empty()),
        };
        followed(first, reason_step(first.decoder, choice))
    }
}

/// A frame of the stream.
pub open spec fn frame_step(decoder: DecoderView, frame: JsonView) -> DecodeStep {
    match member(frame, "error"@) {
        Some(error) => failing(
            decoder,
            Seq::empty(),
            "provider stream error: "@ + json_text(error),
        ),
        None => {
            let counted = match present(frame, "usage"@) {
                Some(usage) => DecoderView { usage, ..decoder },
                None => decoder,
            };
            match member(frame, "choices"@) {
                Some(JsonView::Array(choices)) => if choices.len() > 1 {
                    failing(
                        counted,
                        Seq::empty(),
                        "multiple streaming choices are unsupported"@,
                    )
                } else if choices.len() == 0 {
                    going(counted, Seq::empty())
                } else {
                    choice_step(counted, choices[0])
                },
                _ => failing(counted, Seq::empty(), "stream frame has no choices"@),
            }
        },
    }
}

/// The end of an event: its data is a frame, or the mark that the stream is complete.
pub open spec fn event_step(decoder: DecoderView) -> DecodeStep {
    if decoder.data.len() == 0 {
        going(decoder, Seq::empty())
    } else {
        let taken = DecoderView { data: Seq::empty(), ..decoder };
        if trim_of(decoder.data) == "[DONE]"@ {
            if decoder.finish_reason is None {
                failing(taken, Seq::empty(), "stream ended without a finish reason"@)
            } else {
                going(DecoderView { done: true, ..taken }, Seq::empty())
            }
        } else {
            match json_parse(decoder.data) {
                Err(message) => failing(
                    taken,
                    Seq::empty(),
                    "invalid stream JSON: "@ + message,
                ),
                Ok(frame) => frame_step(taken, frame),
            }
        }
    }
}

/// The value of a data line. One space may stand in front of it.
pub open spec fn data_value(rest: Seq<char>) -> Seq<char> {
    match without_prefix(rest, " "@) {
        Some(value) => value,
        None => rest,
    }
}

/// A line of the stream: an empty line ends an event, data is collected, and anything else
/// carries no model data.
pub open spec fn line_step(decoder: DecoderView, line: Seq<char>) -> DecodeStep {
    if line.len() == 0 {
        event_step(decoder)
    } else {
        match without_prefix(line, "data:"@) {
            None => going(decoder, Seq::empty()),
            Some(rest) => if decoder.done {
                failing(decoder, Seq::empty(), "stream data followed [DONE]"@)
            } else {
                let data = decoder.data + data_value(rest) + "\n"@;
                let grown = DecoderView { data, ..decoder };
                if encode_utf8(data).len() > MAX_FRAME {
                    failing(grown, Seq::empty(), "stream event exceeds 1 MiB"@)
                } else {
                    going(grown, Seq::empty())
                }
            },
        }
    }
}

/// The text without the carriage returns at its end.
pub open spec fn without_returns(line: Seq<char>) -> Seq<char>
    decreases line.len(),
{
    if line.len() > 0 && line.last() == '\r' {
        without_returns(line.drop_last())
    } else {
        line
    }
}

/// One byte of the stream.
pub open spec fn byte_step(decoder: DecoderView, byte: u8) -> DecodeStep {
    if byte == 0xa {
        let taken = DecoderView { pending: Seq::empty(), ..decoder };
        if valid_utf8(decoder.pending) {
            line_step(taken, without_returns(decode_utf8(decoder.pending)))
        } else {
            failing(taken, Seq::empty(), "stream contains invalid UTF-8"@)
        }
    } else {
        let grown = DecoderView { pending: decoder.pending.push(byte), ..decoder };
        if grown.pending.len() > MAX_FRAME {
            failing(grown, Seq::empty(), "stream line exceeds 1 MiB"@)
        } else {
            going(grown, Seq::empty())
        }
    }
}

/// Bytes of the stream, up to the first fault.
pub open spec fn bytes_step(decoder: DecoderView, bytes: Seq<u8>) -> DecodeStep
    decreases bytes.len(),
{
    if bytes.len() == 0 {
        going(decoder, Seq::empty())
    } else {
        let first = bytes_step(decoder, bytes.drop_last());
        followed(first, byte_step(first.decoder, bytes.last()))
    }
}

/// A decoder that has seen nothing.
pub open spec fn new_decoder() -> DecoderView {
    DecoderView {
        pending: Seq::empty(),
        data: Seq::empty(),
        content: Seq::empty(),
        calls: Seq::empty(),
        finish_reason: None,
        usage: JsonView::Null,
        done: false,
    }
}

/// Whether a tool call has arrived completely.
pub open spec fn call_complete(call: Option<StreamCallView>) -> bool {
    call matches Some(found) && found.id.len() > 0 && found.name.len() > 0
        && found.arguments.len() > 0
}

/// Whether every tool call has arrived completely, without a gap between them.
pub open spec fn calls_complete(calls: Seq<Option<StreamCallView>>) -> bool {
    forall|i: int| 0 <= i < calls.len() ==> call_complete(#[trigger] calls[i])
}

/// A complete tool call in the response.
pub open spec fn assembled_call(call: Option<StreamCallView>) -> JsonView {
    match call {
        Some(found) => triple_object(
            "id"@,
            JsonView::Text(found.id),
            "type"@,
            JsonView::Text("function"@),
            "function"@,
            pair_object(
                "name"@,
                JsonView::Text(found.name),
                "arguments"@,
                JsonView::Text(found.arguments),
            ),
        ),
        None => JsonView::Null,
    }
}

/// The tool calls in the response.
pub open spec fn assembled_calls(calls: Seq<Option<StreamCallView>>) -> Seq<JsonView> {
    calls.map_values(|call: Option<StreamCallView>| assembled_call(call))
}

/// The response of a complete stream, in the form of a response that was not streamed.
pub open spec fn assembled(decoder: DecoderView) -> JsonView {
    pair_object(
        "choices"@,
        JsonView::Array(
            seq![
                pair_object(
                    "message"@,
                    pair_object(
                        "content"@,
                        JsonView::Text(decoder.content),
                        "tool_calls"@,
                        JsonView::Array(assembled_calls(decoder.calls)),
                    ),
                    "finish_reason"@,
                    match decoder.finish_reason {
                        Some(reason) => JsonView::Text(reason),
                        None => JsonView::Null,
                    },
                ),
            ],
        ),
        "usage"@,
        decoder.usage,
    )
}

/// The state in which a stream ends: a line and an event that were not ended are.
pub open spec fn last_step(decoder: DecoderView) -> DecodeStep {
    let line = if decoder.pending.len() == 0 {
        going(decoder, Seq::empty())
    } else {
        let taken = DecoderView { pending: Seq::empty(), ..decoder };
        if valid_utf8(decoder.pending) {
            line_step(taken, without_returns(decode_utf8(decoder.pending)))
        } else {
            failing(taken, Seq::empty(), "truncated UTF-8 stream"@)
        }
    };
    followed(line, event_step(line.decoder))
}

/// The response of a stream that has ended, or why there is none.
pub open spec fn finished(decoder: DecoderView) -> Result<JsonView, TransportErrorView> {
    let last = last_step(decoder);
    match last.failure {
        Some(message) => Err(TransportErrorView::Protocol(message)),
        None => if !last.decoder.done {
            Err(TransportErrorView::Protocol("incomplete stream: missing [DONE]"@))
        } else if !calls_complete(last.decoder.calls) {
            Err(TransportErrorView::Protocol("incomplete streamed tool call"@))
        } else {
            Ok(assembled(last.decoder))
        },
    }
}

/// Only complete SSE responses become a provider response. Draft text is the
/// sole incremental output; fragmented tool arguments are never exposed.
#[derive(Debug)]
pub struct Decoder {
    pending: Vec<u8>,
    data: String,
    content: String,
    calls: Vec<Option<StreamCall>>,
    finish_reason: Option<String>,
    usage: Json,
    done: bool,
}

impl View for Decoder {
    type V = DecoderView;

    closed spec fn view(&self) -> DecoderView {
        DecoderView {
            pending: self.pending@,
            data: self.data@,
            content: self.content@,
            calls: call_views(self.calls@),
            finish_reason: opt_view(self.finish_reason),
            usage: self.usage@,
            done: self.done,
        }
    }
}

spec fn call_views(calls: Seq<Option<StreamCall>>) -> Seq<Option<StreamCallView>> {
    calls.map_values(|call: Option<StreamCall>| opt_view(call))
}

/// The view of a decoder's answer.
pub open spec fn failure_of(done: Result<(), TransportError>) -> Option<TransportErrorView> {
    match done {
        Ok(()) => None,
        Err(error) => Some(error@),
    }
}

/// Whether the outcome of a step is this.
pub open spec fn stepped(
    step: DecodeStep,
    decoder: DecoderView,
    texts: Seq<Seq<char>>,
    done: Result<(), TransportError>,
) -> bool {
    &&& decoder == step.decoder
    &&& texts == step.texts
    &&& failure_of(done) == match step.failure {
        None => None,
        Some(message) => Some(TransportErrorView::Protocol(message)),
    }
}

fn error(message: &str) -> (error: TransportError)
    ensures
        error@ == TransportErrorView::Protocol(message@),
{
    TransportError::Protocol(message.to_owned())
}

fn get_present<'a>(value: &'a Json, key: &str) -> (found: Option<&'a Json>)
    ensures
        match found {
            Some(json) => present(value@, key@) == Some(json@),
            None => present(value@, key@) is None,
        },
{
    match value.get(key) {
        Some(Json::Null) => None,
        Some(found) => Some(found),
        None => None,
    }
}

fn collect_arguments(call: &mut StreamCall, function: &Json) -> (done: Result<(), TransportError>)
    ensures
        (final(call)@, failure_of(done)) == ({
            let (after, failure) = collected_arguments(old(call)@, function@);
            (after, protocol_failure(failure))
        }),
{
    match get_present(function, "arguments") {
        Some(arguments) => {
            match arguments.as_text() {
                Some(arguments) => {
                    call.arguments.append(arguments.as_str());
                },
                None => {
                    return Err(error("invalid streamed arguments fragment"));
                },
            }
        },
        None => {},
    }
    Ok(())
}

spec fn protocol_failure(failure: Option<Seq<char>>) -> Option<TransportErrorView> {
    match failure {
        None => None,
        Some(message) => Some(TransportErrorView::Protocol(message)),
    }
}

fn collect_function(call: &mut StreamCall, fragment: &Json) -> (done: Result<(), TransportError>)
    ensures
        (final(call)@, failure_of(done)) == ({
            let (after, failure) = collected_function(old(call)@, fragment@);
            (after, protocol_failure(failure))
        }),
{
    let function = match fragment.get("function") {
        Some(function) => function,
        None => {
            return Ok(());
        },
    };
    match get_present(function, "name") {
        Some(name) => {
            match name.as_text() {
                Some(name) => {
                    call.name.append(name.as_str());
                },
                None => {
                    return Err(error("invalid streamed function name"));
                },
            }
        },
        None => {},
    }
    collect_arguments(call, function)
}

fn collect(call: &mut StreamCall, fragment: &Json) -> (done: Result<(), TransportError>)
    ensures
        (final(call)@, failure_of(done)) == ({
            let (after, failure) = collected(old(call)@, fragment@);
            (after, protocol_failure(failure))
        }),
{
    match get_present(fragment, "id") {
        Some(id) => {
            match id.as_text() {
                Some(id) => {
                    call.id.append(id.as_str());
                },
                None => {
                    return Err(error("invalid stream call id"));
                },
            }
        },
        None => {},
    }
    match get_present(fragment, "type") {
        Some(kind) => {
            let supported = match kind.as_text() {
                Some(kind) => same_text(kind.as_str(), "function"),
                None => false,
            };
            if !supported {
                return Err(error("unsupported streamed tool type"));
            }
        },
        None => {},
    }
    collect_function(call, fragment)
}

fn trim_returns(line: &str) -> (trimmed: String)
    ensures
        trimmed@ == without_returns(line@),
{
    let chars = chars_of(line);
    let mut end: usize = chars.len();
    assert(chars@.take(end as int) =~= line@);
    while end > 0 && chars[end - 1] == '\r'
        invariant
            end <= chars@.len(),
            chars@ == line@,
            without_returns(line@) == without_returns(chars@.take(end as int)),
        decreases end,
    {
        proof {
            let current = chars@.take(end as int);
            assert(current.last() == '\r');
            assert(current.drop_last() =~= chars@.take(end - 1));
        }
        end = end - 1;
    }
    let ghost current = chars@.take(end as int);
    assert(end > 0 ==> current.last() == chars@[end - 1]);
    assert(chars@.subrange(0, end as int) =~= current);
    slice_text(&chars, 0, end)
}

impl Decoder {
    pub fn new() -> (decoder: Self)
        ensures
            decoder@ == new_decoder(),
    {
        let decoder = Decoder {
            pending: Vec::new(),
            data: String::new(),
            content: String::new(),
            calls: Vec::new(),
            finish_reason: None,
            usage: Json::Null,
            done: false,
        };
        assert(decoder@ =~= new_decoder());
        decoder
    }

    fn take_call(&mut self, fragment: &Json) -> (done: Result<(), TransportError>)
        ensures
            stepped(call_step(old(self)@, fragment@), final(self)@, Seq::empty(), done),
    {
        let ghost before = self@;
        let index: u64 = match get_unsigned(fragment, "index") {
            Some(index) => index,
            None => {
                return Err(error("stream tool index must be below 128"));
            },
        };
        if index >= 128 {
            return Err(error("stream tool index must be below 128"));
        }
        let slot: usize = index as usize;
        while self.calls.len() <= slot
            invariant
                slot < 128,
                self.pending == old(self).pending,
                self.data == old(self).data,
                self.content == old(self).content,
                self.finish_reason == old(self).finish_reason,
                self.usage == old(self).usage,
                self.done == old(self).done,
                before == old(self)@,
                self.calls@.len() >= before.calls.len(),
                self.calls@.len() <= slot + 1 || self.calls@.len() == before.calls.len(),
                call_views(self.calls@) == before.calls + Seq::new(
                    (self.calls@.len() - before.calls.len()) as nat,
                    |i: int| None::<StreamCallView>,
                ),
            decreases slot + 1 - self.calls@.len(),
        {
            let ghost earlier = self.calls@;
            self.calls.push(None);
            assert(call_views(self.calls@) =~= call_views(earlier).push(None));
            assert(call_views(self.calls@) =~= before.calls + Seq::new(
                (self.calls@.len() - before.calls.len()) as nat,
                |i: int| None::<StreamCallView>,
            ));
        }
        let ghost grown = self.calls@;
        let mut call = match &self.calls[slot] {
            Some(call) => call.clone(),
            None => StreamCall { id: String::new(), name: String::new(), arguments: String::new() },
        };
        proof {
            assert(call_views(grown)[slot as int] == opt_view(grown[slot as int]));
            assert(call@ =~= call_at(before.calls, slot as int));
        }
        let done = collect(&mut call, fragment);
        self.calls.set(slot, Some(call));
        proof {
            assert(call_views(self.calls@) =~= call_views(grown).update(slot as int, Some(call@)));
            assert(call_views(self.calls@) =~= with_call(before.calls, slot as int, call@));
        }
        done
    }

    fn take_calls(&mut self, fragments: &Vec<Json>) -> (done: Result<(), TransportError>)
        ensures
            stepped(
                calls_step(old(self)@, views(fragments@), 0),
                final(self)@,
                Seq::empty(),
                done,
            ),
    {
        let ghost all = views(fragments@);
        let mut at: usize = 0;
        while at < fragments.len()
            invariant
                at <= fragments@.len(),
                all == views(fragments@),
                all.len() == fragments@.len(),
                calls_step(old(self)@, all, 0) == calls_step(self@, all, at as int),
            decreases fragments@.len() - at,
        {
            assert(all[at as int] == fragments@[at as int]@);
            match self.take_call(&fragments[at]) {
                Ok(()) => {},
                Err(error) => {
                    return Err(error);
                },
            }
            at = at + 1;
        }
        Ok(())
    }

    fn take_delta(&mut self, delta: &Json, texts: &mut Vec<String>) -> (done: Result<
        (),
        TransportError,
    >)
        ensures
            ({
                let step = delta_step(old(self)@, delta@);
                &&& final(self)@ == step.decoder
                &&& views(final(texts)@) == views(old(texts)@) + step.texts
                &&& failure_of(done) == protocol_failure(step.failure)
            }),
    {
        let ghost shown = views(texts@);
        assert(shown + Seq::<Seq<char>>::empty() =~= shown);
        match get_present(delta, "content") {
            Some(content) => {
                let content = match content.as_text() {
                    Some(content) => content,
                    None => {
                        return Err(error("stream text delta must be a string"));
                    },
                };
                if content.as_str().unicode_len() > 0 {
                    self.content.append(content.as_str());
                    let text = content.clone();
                    proof {
                        lemma_views_push(texts@, text);
                        assert(shown.push(text@) =~= shown + seq![text@]);
                        assert(seq![text@] + Seq::<Seq<char>>::empty() =~= seq![text@]);
                    }
                    texts.push(text);
                }
            },
            None => {},
        }
        assert(Seq::<Seq<char>>::empty() + Seq::<Seq<char>>::empty() =~= Seq::empty());
        match delta.get("function_call") {
            Some(_) => {
                return Err(error("legacy streamed function_call is unsupported"));
            },
            None => {},
        }
        let fragments = match delta.get("tool_calls") {
            Some(fragments) => fragments,
            None => {
                return Ok(());
            },
        };
        let ghost middle = self@;
        match fragments.as_array() {
            Some(fragments) => {
                proof {
                    lemma_calls_show_nothing(middle, views(fragments@), 0);
                }
                self.take_calls(fragments)
            },
            None => Err(error("stream tool_calls must be an array")),
        }
    }

    fn take_choice(&mut self, choice: &Json, texts: &mut Vec<String>) -> (done: Result<
        (),
        TransportError,
    >)
        ensures
            ({
                let step = choice_step(old(self)@, choice@);
                &&& final(self)@ == step.decoder
                &&& views(final(texts)@) == views(old(texts)@) + step.texts
                &&& failure_of(done) == protocol_failure(step.failure)
            }),
    {
        let ghost shown = views(texts@);
        assert(shown + Seq::<Seq<char>>::empty() =~= shown);
        match get_unsigned(choice, "index") {
            Some(0) => {},
            _ => {
                return Err(error("unexpected stream choice index"));
            },
        }
        if self.finish_reason.is_some() {
            return Err(error("choice data followed its finish reason"));
        }
        let ghost mut first = going(self@, Seq::empty());
        match choice.get("delta") {
            Some(delta) => {
                proof {
                    first = delta_step(self@, delta@);
                }
                match self.take_delta(delta, texts) {
                    Ok(()) => {},
                    Err(error) => {
                        return Err(error);
                    },
                }
            },
            None => {},
        }
        proof {
            assert(first.texts + Seq::<Seq<char>>::empty() =~= first.texts);
        }
        match get_present(choice, "finish_reason") {
            Some(reason) => {
                match reason.as_text() {
                    Some(reason) => {
                        self.finish_reason = Some(reason.clone());
                    },
                    None => {
                        return Err(error("invalid stream finish reason"));
                    },
                }
            },
            None => {},
        }
        Ok(())
    }

    fn take_frame(&mut self, frame: &Json, texts: &mut Vec<String>) -> (done: Result<
        (),
        TransportError,
    >)
        ensures
            ({
                let step = frame_step(old(self)@, frame@);
                &&& final(self)@ == step.decoder
                &&& views(final(texts)@) == views(old(texts)@) + step.texts
                &&& failure_of(done) == protocol_failure(step.failure)
            }),
    {
        let ghost shown = views(texts@);
        assert(shown + Seq::<Seq<char>>::empty() =~= shown);
        match frame.get("error") {
            Some(found) => {
                let message = "provider stream error: ".to_owned().concat(
                    found.to_text().as_str(),
                );
                return Err(TransportError::Protocol(message));
            },
            None => {},
        }
        match get_present(frame, "usage") {
            Some(usage) => {
                self.usage = usage.clone();
            },
            None => {},
        }
        let choices = match frame.get("choices") {
            Some(choices) => match choices.as_array() {
                Some(choices) => choices,
                None => {
                    return Err(error("stream frame has no choices"));
                },
            },
            None => {
                return Err(error("stream frame has no choices"));
            },
        };
        if choices.len() > 1 {
            return Err(error("multiple streaming choices are unsupported"));
        }
        if choices.len() == 0 {
            return Ok(());
        }
        assert(views(choices@)[0] == choices@[0]@);
        self.take_choice(&choices[0], texts)
    }

    /// Ends an event.
    fn dispatch(&mut self, texts: &mut Vec<String>) -> (done: Result<(), TransportError>)
        ensures
            ({
                let step = event_step(old(self)@);
                &&& final(self)@ == step.decoder
                &&& views(final(texts)@) == views(old(texts)@) + step.texts
                &&& failure_of(done) == protocol_failure(step.failure)
            }),
    {
        let ghost shown = views(texts@);
        assert(shown + Seq::<Seq<char>>::empty() =~= shown);
        if self.data.as_str().unicode_len() == 0 {
            return Ok(());
        }
        let mut data = String::new();
        std::mem::swap(&mut data, &mut self.data);
        assert(self.data@ =~= Seq::<char>::empty());
        if same_text(trim(data.as_str()).as_str(), "[DONE]") {
            if self.finish_reason.is_none() {
                return Err(error("stream ended without a finish reason"));
            }
            self.done = true;
            return Ok(());
        }
        match parse(data.as_str()) {
            Ok(frame) => self.take_frame(&frame, texts),
            Err(message) => {
                let message = "invalid stream JSON: ".to_owned().concat(message.as_str());
                Err(TransportError::Protocol(message))
            },
        }
    }

    fn line(&mut self, line: &str, texts: &mut Vec<String>) -> (done: Result<(), TransportError>)
        ensures
            ({
                let step = line_step(old(self)@, line@);
                &&& final(self)@ == step.decoder
                &&& views(final(texts)@) == views(old(texts)@) + step.texts
                &&& failure_of(done) == protocol_failure(step.failure)
            }),
    {
        let ghost shown = views(texts@);
        assert(shown + Seq::<Seq<char>>::empty() =~= shown);
        if line.unicode_len() == 0 {
            return self.dispatch(texts);
        }
        match strip_prefix(line, "data:") {
            Some(rest) => {
                if self.done {
                    return Err(error("stream data followed [DONE]"));
                }
                let value = match strip_prefix(rest.as_str(), " ") {
                    Some(value) => value,
                    None => rest,
                };
                self.data.append(value.as_str());
                self.data.append("\n");
                if byte_len(self.data.as_str()) > MAX_FRAME {
                    return Err(error("stream event exceeds 1 MiB"));
                }
            },
            None => {},
        }
        Ok(())
    }

    fn byte(&mut self, byte: u8, texts: &mut Vec<String>) -> (done: Result<(), TransportError>)
        ensures
            ({
                let step = byte_step(old(self)@, byte);
                &&& final(self)@ == step.decoder
                &&& views(final(texts)@) == views(old(texts)@) + step.texts
                &&& failure_of(done) == protocol_failure(step.failure)
            }),
    {
        let ghost shown = views(texts@);
        assert(shown + Seq::<Seq<char>>::empty() =~= shown);
        if byte == 0xa {
            let mut pending: Vec<u8> = Vec::new();
            std::mem::swap(&mut pending, &mut self.pending);
            assert(self.pending@ =~= Seq::<u8>::empty());
            match decode(&pending) {
                Ok(line) => {
                    let line = trim_returns(line.as_str());
                    self.line(line.as_str(), texts)
                },
                Err(_) => Err(error("stream contains invalid UTF-8")),
            }
        } else {
            self.pending.push(byte);
            if self.pending.len() > MAX_FRAME {
                return Err(error("stream line exceeds 1 MiB"));
            }
            Ok(())
        }
    }

    /// Takes bytes of the stream, and adds the texts that they show.
    pub fn push(&mut self, bytes: &Vec<u8>, texts: &mut Vec<String>) -> (done: Result<
        (),
        TransportError,
    >)
        ensures
            ({
                let step = bytes_step(old(self)@, bytes@);
                &&& final(self)@ == step.decoder
                &&& views(final(texts)@) == views(old(texts)@) + step.texts
                &&& failure_of(done) == (match step.failure {
                    None => None,
                    Some(message) => Some(TransportErrorView::Protocol(message)),
                })
            }),
    {
        let ghost shown = views(texts@);
        let ghost start = self@;
        let mut at: usize = 0;
        assert(bytes@.take(0) =~= Seq::empty());
        assert(shown + Seq::<Seq<char>>::empty() =~= shown);
        while at < bytes.len()
            invariant
                at <= bytes@.len(),
                start == old(self)@,
                shown == views(old(texts)@),
                bytes_step(start, bytes@.take(at as int)).failure is None,
                self@ == bytes_step(start, bytes@.take(at as int)).decoder,
                views(texts@) == shown + bytes_step(start, bytes@.take(at as int)).texts,
            decreases bytes@.len() - at,
        {
            let ghost earlier = bytes_step(start, bytes@.take(at as int));
            let ghost now = bytes_step(start, bytes@.take(at as int + 1));
            proof {
                let grown = bytes@.take(at as int + 1);
                assert(grown.drop_last() =~= bytes@.take(at as int));
                assert(grown.last() == bytes@[at as int]);
            }
            let ghost step = byte_step(self@, bytes@[at as int]);
            match self.byte(bytes[at], texts) {
                Ok(()) => {
                    assert(shown + earlier.texts + step.texts =~= shown + now.texts);
                },
                Err(error) => {
                    proof {
                        assert(shown + earlier.texts + step.texts =~= shown + now.texts);
                        lemma_failure_lasts(start, bytes@, at as int + 1);
                    }
                    return Err(error);
                },
            }
            at = at + 1;
        }
        assert(bytes@.take(at as int) =~= bytes@);
        Ok(())
    }

    /// The response of the stream, which has ended.
    pub fn finish(self) -> (response: Result<Json, TransportError>)
        ensures
            res_view(response) == finished(self@),
    {
        let mut decoder = self;
        let mut texts: Vec<String> = Vec::new();
        if decoder.pending.len() > 0 {
            let mut pending: Vec<u8> = Vec::new();
            std::mem::swap(&mut pending, &mut decoder.pending);
            assert(decoder.pending@ =~= Seq::<u8>::empty());
            match decode(&pending) {
                Ok(line) => {
                    let line = trim_returns(line.as_str());
                    match decoder.line(line.as_str(), &mut texts) {
                        Ok(()) => {},
                        Err(error) => {
                            return Err(error);
                        },
                    }
                },
                Err(_) => {
                    return Err(error("truncated UTF-8 stream"));
                },
            }
        }
        match decoder.dispatch(&mut texts) {
            Ok(()) => {},
            Err(error) => {
                return Err(error);
            },
        }
        assert(decoder@ == last_step(self@).decoder);
        if !decoder.done {
            return Err(error("incomplete stream: missing [DONE]"));
        }
        let calls = match assemble_calls(&decoder.calls) {
            Some(calls) => calls,
            None => {
                return Err(error("incomplete streamed tool call"));
            },
        };
        proof {
            lemma_array(calls);
        }
        let message = make_pair(
            "content",
            text_json(decoder.content.as_str()),
            "tool_calls",
            Json::Array(calls),
        );
        let reason = match &decoder.finish_reason {
            Some(reason) => text_json(reason.as_str()),
            None => Json::Null,
        };
        let choice = make_pair("message", message, "finish_reason", reason);
        let mut choices: Vec<Json> = Vec::new();
        choices.push(choice);
        proof {
            lemma_array(choices);
            assert(views(choices@) =~= seq![choice@]);
        }
        let body = make_pair("choices", Json::Array(choices), "usage", decoder.usage);
        assert(body@ == assembled(last_step(self@).decoder));
        Ok(body)
    }
}

fn assemble_calls(calls: &Vec<Option<StreamCall>>) -> (assembled: Option<Vec<Json>>)
    ensures
        match assembled {
            Some(found) => calls_complete(call_views(calls@)) && views(found@) == assembled_calls(
                call_views(calls@),
            ),
            None => !calls_complete(call_views(calls@)),
        },
{
    let ghost all = call_views(calls@);
    let ghost wanted = assembled_calls(all);
    let mut found: Vec<Json> = Vec::new();
    let mut at: usize = 0;
    assert(views(found@) =~= wanted.take(0));
    while at < calls.len()
        invariant
            at <= calls@.len(),
            all == call_views(calls@),
            all.len() == calls@.len(),
            wanted == assembled_calls(all),
            views(found@) == wanted.take(at as int),
            forall|i: int| 0 <= i < at ==> call_complete(#[trigger] all[i]),
        decreases calls@.len() - at,
    {
        assert(all[at as int] == opt_view(calls@[at as int]));
        match &calls[at] {
            Some(call) => {
                if call.id.as_str().unicode_len() == 0 || call.name.as_str().unicode_len() == 0
                    || call.arguments.as_str().unicode_len() == 0 {
                    assert(!call_complete(all[at as int]));
                    return None;
                }
                let function = make_pair(
                    "name",
                    text_json(call.name.as_str()),
                    "arguments",
                    text_json(call.arguments.as_str()),
                );
                let json = make_triple(
                    "id",
                    text_json(call.id.as_str()),
                    "type",
                    text_json("function"),
                    "function",
                    function,
                );
                proof {
                    assert(wanted[at as int] == json@);
                    assert(wanted.take(at as int + 1) =~= wanted.take(at as int).push(json@));
                    lemma_views_push(found@, json);
                }
                found.push(json);
            },
            None => {
                assert(!call_complete(all[at as int]));
                return None;
            },
        }
        at = at + 1;
    }
    assert(wanted.take(at as int) =~= wanted);
    Some(found)
}

proof fn lemma_calls_show_nothing(decoder: DecoderView, fragments: Seq<JsonView>, at: int)
    ensures
        calls_step(decoder, fragments, at).texts == Seq::<Seq<char>>::empty(),
        calls_step(decoder, fragments, at).decoder.content == decoder.content,
        calls_step(decoder, fragments, at).decoder.finish_reason == decoder.finish_reason,
        calls_step(decoder, fragments, at).decoder.done == decoder.done,
        calls_step(decoder, fragments, at).decoder.data == decoder.data,
    decreases fragments.len() - at,
{
    if 0 <= at < fragments.len() {
        let step = call_step(decoder, fragments[at]);
        if step.failure is None {
            lemma_calls_show_nothing(step.decoder, fragments, at + 1);
        }
    }
}

proof fn lemma_failure_lasts(decoder: DecoderView, bytes: Seq<u8>, count: int)
    requires
        0 <= count <= bytes.len(),
        bytes_step(decoder, bytes.take(count)).failure is Some,
    ensures
        bytes_step(decoder, bytes) == bytes_step(decoder, bytes.take(count)),
    decreases bytes.len(),
{
    if count < bytes.len() {
        assert(bytes.drop_last().take(count) =~= bytes.take(count));
        lemma_failure_lasts(decoder, bytes.drop_last(), count);
    } else {
        assert(bytes.take(count) =~= bytes);
    }
}

// ---------------------------------------------------------------------------
// Laws
// ---------------------------------------------------------------------------

/// What a stream decodes to does not depend on how its bytes arrive: bytes in two pieces
/// make the same step as the same bytes in one.
pub proof fn law_decoding_ignores_how_bytes_arrive(
    decoder: DecoderView,
    first: Seq<u8>,
    second: Seq<u8>,
)
    ensures
        ({
            let step = bytes_step(decoder, first);
            bytes_step(decoder, first + second) == followed(
                step,
                bytes_step(step.decoder, second),
            )
        }),
    decreases second.len(),
{
    let step = bytes_step(decoder, first);
    if second.len() == 0 {
        assert(first + second =~= first);
        assert(step.texts + Seq::<Seq<char>>::empty() =~= step.texts);
    } else {
        let whole = first + second;
        assert(whole.drop_last() =~= first + second.drop_last());
        assert(whole.last() == second.last());
        law_decoding_ignores_how_bytes_arrive(decoder, first, second.drop_last());
        let middle = bytes_step(step.decoder, second.drop_last());
        let last = byte_step(middle.decoder, second.last());
        assert((step.texts + middle.texts) + last.texts =~= step.texts + (middle.texts
            + last.texts));
    }
}

/// The texts one after the other.
pub open spec fn together(texts: Seq<Seq<char>>) -> Seq<char>
    decreases texts.len(),
{
    if texts.len() == 0 {
        Seq::empty()
    } else {
        together(texts.drop_last()) + texts.last()
    }
}

/// Whether a step keeps what holds of every stream: what was shown is the content, and a
/// stream is done only after its finish reason.
pub open spec fn faithful(before: DecoderView, step: DecodeStep) -> bool {
    &&& step.decoder.content == before.content + together(step.texts)
    &&& (before.finish_reason is Some ==> step.decoder.finish_reason == before.finish_reason)
    &&& (step.decoder.done ==> before.done || step.decoder.finish_reason is Some)
}

proof fn lemma_together(first: Seq<Seq<char>>, second: Seq<Seq<char>>)
    ensures
        together(first + second) == together(first) + together(second),
    decreases second.len(),
{
    if second.len() == 0 {
        assert(first + second =~= first);
        assert(together(first) + Seq::<char>::empty() =~= together(first));
    } else {
        let whole = first + second;
        assert(whole.drop_last() =~= first + second.drop_last());
        assert(whole.last() == second.last());
        lemma_together(first, second.drop_last());
        assert(together(first) + together(second.drop_last()) + second.last() =~= together(first)
            + (together(second.drop_last()) + second.last()));
    }
}

proof fn lemma_faithful_going(decoder: DecoderView, step: DecodeStep)
    requires
        step.texts.len() == 0,
        step.decoder.content == decoder.content,
        decoder.finish_reason is Some ==> step.decoder.finish_reason == decoder.finish_reason,
        step.decoder.done ==> decoder.done || step.decoder.finish_reason is Some,
    ensures
        faithful(decoder, step),
{
    assert(decoder.content + Seq::<char>::empty() =~= decoder.content);
}

proof fn lemma_faithful_followed(decoder: DecoderView, first: DecodeStep, second: DecodeStep)
    requires
        faithful(decoder, first),
        faithful(first.decoder, second),
    ensures
        faithful(decoder, followed(first, second)),
{
    lemma_together(first.texts, second.texts);
    assert(decoder.content + together(first.texts) + together(second.texts) =~= decoder.content + (
    together(first.texts) + together(second.texts)));
}

proof fn lemma_faithful_frame(decoder: DecoderView, frame: JsonView)
    ensures
        faithful(decoder, frame_step(decoder, frame)),
{
    let counted = match present(frame, "usage"@) {
        Some(usage) => DecoderView { usage, ..decoder },
        None => decoder,
    };
    match member(frame, "choices"@) {
        Some(JsonView::Array(choices)) => {
            if choices.len() == 1 && member(frame, "error"@) is None {
                let choice = choices[0];
                if unsigned_member(choice, "index"@) == Some(0u64) && counted.finish_reason
                    is None {
                    let first = match member(choice, "delta"@) {
                        Some(delta) => delta_step(counted, delta),
                        None => going(counted, Seq::empty()),
                    };
                    match member(choice, "delta"@) {
                        Some(delta) => {
                            let text = text_step(counted, delta);
                            match present(delta, "content"@) {
                                Some(JsonView::Text(shown)) => {
                                    if shown.len() > 0 {
                                        assert(seq![shown].drop_last() =~= Seq::empty());
                                        assert(together(Seq::<Seq<char>>::empty()) =~= Seq::<
                                            char,
                                        >::empty());
                                        assert(together(seq![shown]) =~= Seq::<char>::empty()
                                            + shown);
                                        assert(together(seq![shown]) =~= shown);
                                        assert(faithful(counted, text));
                                    } else {
                                        lemma_faithful_going(counted, text);
                                    }
                                },
                                _ => lemma_faithful_going(counted, text),
                            }
                            match member(delta, "tool_calls"@) {
                                Some(JsonView::Array(fragments)) => {
                                    lemma_calls_show_nothing(text.decoder, fragments, 0);
                                },
                                _ => {},
                            }
                            lemma_faithful_going(text.decoder, tools_step(text.decoder, delta));
                            lemma_faithful_followed(
                                counted,
                                text,
                                tools_step(text.decoder, delta),
                            );
                        },
                        None => lemma_faithful_going(counted, first),
                    }
                    lemma_keeps_reason(counted, choice);
                    lemma_faithful_going(first.decoder, reason_step(first.decoder, choice));
                    lemma_faithful_followed(counted, first, reason_step(first.decoder, choice));
                } else {
                    lemma_faithful_going(decoder, frame_step(decoder, frame));
                }
            } else {
                lemma_faithful_going(decoder, frame_step(decoder, frame));
            }
        },
        _ => lemma_faithful_going(decoder, frame_step(decoder, frame)),
    }
}

proof fn lemma_keeps_reason(decoder: DecoderView, choice: JsonView)
    requires
        decoder.finish_reason is None,
    ensures
        ({
            let first = match member(choice, "delta"@) {
                Some(delta) => delta_step(decoder, delta),
                None => going(decoder, Seq::empty()),
            };
            first.decoder.finish_reason is None && first.decoder.done == decoder.done
        }),
{
    match member(choice, "delta"@) {
        Some(delta) => {
            let text = text_step(decoder, delta);
            match member(delta, "tool_calls"@) {
                Some(JsonView::Array(fragments)) => {
                    lemma_calls_show_nothing(text.decoder, fragments, 0);
                },
                _ => {},
            }
        },
        None => {},
    }
}

proof fn lemma_faithful_event(decoder: DecoderView)
    ensures
        faithful(decoder, event_step(decoder)),
{
    let taken = DecoderView { data: Seq::empty(), ..decoder };
    if decoder.data.len() > 0 && trim_of(decoder.data) != "[DONE]"@ && json_parse(decoder.data)
        is Ok {
        lemma_faithful_frame(taken, json_parse(decoder.data)->Ok_0);
    } else {
        lemma_faithful_going(decoder, event_step(decoder));
    }
}

proof fn lemma_faithful_line(decoder: DecoderView, line: Seq<char>)
    ensures
        faithful(decoder, line_step(decoder, line)),
{
    if line.len() == 0 {
        lemma_faithful_event(decoder);
    } else {
        lemma_faithful_going(decoder, line_step(decoder, line));
    }
}

/// The texts that a decoder shows are its content, piece by piece, and a stream is done
/// only after its finish reason, whatever bytes arrive.
pub proof fn law_previews_are_the_content(decoder: DecoderView, bytes: Seq<u8>)
    ensures
        faithful(decoder, bytes_step(decoder, bytes)),
    decreases bytes.len(),
{
    if bytes.len() == 0 {
        lemma_faithful_going(decoder, bytes_step(decoder, bytes));
    } else {
        law_previews_are_the_content(decoder, bytes.drop_last());
        let first = bytes_step(decoder, bytes.drop_last());
        let second = byte_step(first.decoder, bytes.last());
        let taken = DecoderView { pending: Seq::empty(), ..first.decoder };
        if bytes.last() == 0xa && valid_utf8(first.decoder.pending) {
            lemma_faithful_line(taken, without_returns(decode_utf8(first.decoder.pending)));
        } else {
            lemma_faithful_going(first.decoder, second);
        }
        lemma_faithful_followed(decoder, first, second);
    }
}

/// A frame neither ends the stream nor touches the data of the next event.
proof fn lemma_frame_ends_nothing(decoder: DecoderView, frame: JsonView)
    ensures
        frame_step(decoder, frame).decoder.done == decoder.done,
        frame_step(decoder, frame).decoder.data == decoder.data,
{
    match member(frame, "choices"@) {
        Some(JsonView::Array(choices)) => if choices.len() == 1 {
            let counted = match present(frame, "usage"@) {
                Some(usage) => DecoderView { usage, ..decoder },
                None => decoder,
            };
            match member(choices[0], "delta"@) {
                Some(delta) => {
                    let text = text_step(counted, delta);
                    match member(delta, "tool_calls"@) {
                        Some(JsonView::Array(fragments)) => {
                            lemma_calls_show_nothing(text.decoder, fragments, 0);
                        },
                        _ => {},
                    }
                },
                None => {},
            }
        },
        _ => {},
    }
}

/// Whether nothing is left to be shown once the stream is done.
spec fn settled(decoder: DecoderView) -> bool {
    decoder.done ==> decoder.data.len() == 0
}

/// The end of an event leaves no data, and what ends the stream shows nothing.
proof fn lemma_event_settles(decoder: DecoderView)
    requires
        settled(decoder),
    ensures
        event_step(decoder).decoder.data.len() == 0,
        event_step(decoder).decoder.done ==> event_step(decoder).texts.len() == 0,
        decoder.done ==> event_step(decoder).decoder.done,
{
    let taken = DecoderView { data: Seq::empty(), ..decoder };
    if decoder.data.len() > 0 && trim_of(decoder.data) != "[DONE]"@ && json_parse(decoder.data)
        is Ok {
        lemma_frame_ends_nothing(taken, json_parse(decoder.data)->Ok_0);
    }
}

proof fn lemma_line_settles(decoder: DecoderView, line: Seq<char>)
    requires
        settled(decoder),
    ensures
        line_step(decoder, line).failure is None ==> settled(line_step(decoder, line).decoder),
        line_step(decoder, line).decoder.done ==> line_step(decoder, line).texts.len() == 0,
        line_step(decoder, line).texts.len() > 0 ==> line_step(decoder, line).decoder.data.len()
            == 0,
{
    if line.len() == 0 {
        lemma_event_settles(decoder);
    }
}

proof fn lemma_bytes_settle(bytes: Seq<u8>)
    ensures
        bytes_step(new_decoder(), bytes).failure is None ==> settled(
            bytes_step(new_decoder(), bytes).decoder,
        ),
    decreases bytes.len(),
{
    if bytes.len() > 0 {
        lemma_bytes_settle(bytes.drop_last());
        let first = bytes_step(new_decoder(), bytes.drop_last());
        let taken = DecoderView { pending: Seq::empty(), ..first.decoder };
        if first.failure is None && bytes.last() == 0xa && valid_utf8(first.decoder.pending) {
            lemma_line_settles(taken, without_returns(decode_utf8(first.decoder.pending)));
        }
    }
}

/// Only complete streams become a response: every byte decoded, the finish reason came, the
/// end was marked, and every tool call is complete. The content of the response is exactly
/// what was shown while it arrived.
pub proof fn law_only_complete_streams_become_responses(bytes: Seq<u8>)
    requires
        bytes_step(new_decoder(), bytes).failure is None,
        finished(bytes_step(new_decoder(), bytes).decoder) is Ok,
    ensures
        ({
            let decoder = bytes_step(new_decoder(), bytes).decoder;
            let last = last_step(decoder);
            &&& last.failure is None
            &&& last.decoder.done
            &&& last.decoder.finish_reason is Some
            &&& calls_complete(last.decoder.calls)
            &&& finished(decoder) == Ok::<JsonView, TransportErrorView>(assembled(last.decoder))
            &&& last.decoder.content == together(bytes_step(new_decoder(), bytes).texts)
        }),
{
    let step = bytes_step(new_decoder(), bytes);
    let decoder = step.decoder;
    law_previews_are_the_content(new_decoder(), bytes);
    assert(new_decoder().content + together(step.texts) =~= together(step.texts));
    let line = if decoder.pending.len() == 0 {
        going(decoder, Seq::empty())
    } else {
        let taken = DecoderView { pending: Seq::empty(), ..decoder };
        if valid_utf8(decoder.pending) {
            line_step(taken, without_returns(decode_utf8(decoder.pending)))
        } else {
            failing(taken, Seq::empty(), "truncated UTF-8 stream"@)
        }
    };
    if decoder.pending.len() == 0 {
        lemma_faithful_going(decoder, line);
    } else if valid_utf8(decoder.pending) {
        lemma_faithful_line(
            DecoderView { pending: Seq::empty(), ..decoder },
            without_returns(decode_utf8(decoder.pending)),
        );
    } else {
        lemma_faithful_going(decoder, line);
    }
    lemma_faithful_event(line.decoder);
    lemma_faithful_followed(decoder, line, event_step(line.decoder));
    lemma_bytes_settle(bytes);
    let taken = DecoderView { pending: Seq::empty(), ..decoder };
    if decoder.pending.len() > 0 && valid_utf8(decoder.pending) {
        lemma_line_settles(taken, without_returns(decode_utf8(decoder.pending)));
    }
    lemma_event_settles(line.decoder);
    let last = last_step(decoder);
    assert(line.texts.len() == 0);
    assert(last.texts =~= Seq::empty());
    assert(together(step.texts) + together(last.texts) =~= together(step.texts));
}

} // verus!
