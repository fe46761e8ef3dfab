//! What a stream amounts to: the frames that it holds, and the answer that they make.

use vstd::prelude::*;
use vstd::utf8::*;

use crate::json::{json_parse, member, JsonView};
use crate::model::StopReason;
use crate::provider::{call_of, response_of, TransportErrorView};
use crate::provider_laws::{
    law_answers_are_read_from_the_first_choice, law_readable_answers_are_read,
};
use crate::stream::{
    assembled, assembled_calls, byte_step, bytes_step, call_at, call_step, calls_complete,
    calls_step, event_step, finished, frame_step, last_step,
    law_only_complete_streams_become_responses, line_step, new_decoder, present, text_step,
    without_returns, Decoder, DecoderView, StreamCallView,
};
use crate::text::{begins, trim_of};

verus! {

// ---------------------------------------------------------------------------
// The frames of a stream
// ---------------------------------------------------------------------------

/// The frame that the data of an event holds, if it is one.
pub open spec fn frame_of(data: Seq<char>) -> Seq<JsonView> {
    if data.len() == 0 || trim_of(data) == "[DONE]"@ {
        Seq::empty()
    } else {
        match json_parse(data) {
            Ok(frame) => seq![frame],
            Err(_) => Seq::empty(),
        }
    }
}

/// The frame that a line ends.
pub open spec fn line_frames(decoder: DecoderView, line: Seq<char>) -> Seq<JsonView> {
    if line.len() == 0 {
        frame_of(decoder.data)
    } else {
        Seq::empty()
    }
}

/// The frames of a stream, in the order in which they end.
pub open spec fn stream_frames(bytes: Seq<u8>) -> Seq<JsonView>
    decreases bytes.len(),
{
    if bytes.len() == 0 {
        Seq::empty()
    } else {
        let front = bytes.drop_last();
        let decoder = bytes_step(new_decoder(), front).decoder;
        stream_frames(front) + if bytes.last() == 0xa && valid_utf8(decoder.pending) {
            line_frames(decoder, without_returns(decode_utf8(decoder.pending)))
        } else {
            Seq::empty()
        }
    }
}

/// The frames that the end of a stream ends.
pub open spec fn last_frames(decoder: DecoderView) -> Seq<JsonView> {
    if decoder.pending.len() == 0 {
        frame_of(decoder.data)
    } else {
        let taken = DecoderView { pending: Seq::empty(), ..decoder };
        let line = without_returns(decode_utf8(decoder.pending));
        line_frames(taken, line) + frame_of(line_step(taken, line).decoder.data)
    }
}

/// All frames of a stream that has ended.
pub open spec fn all_frames(bytes: Seq<u8>) -> Seq<JsonView> {
    stream_frames(bytes) + last_frames(bytes_step(new_decoder(), bytes).decoder)
}

// ---------------------------------------------------------------------------
// What the frames say
// ---------------------------------------------------------------------------

/// A text, or nothing.
pub open spec fn text_or_nothing(value: Option<JsonView>) -> Seq<char> {
    match value {
        Some(JsonView::Text(text)) => text,
        _ => Seq::empty(),
    }
}

/// The choice of a frame.
pub open spec fn choice_of(frame: JsonView) -> JsonView {
    match member(frame, "choices"@) {
        Some(JsonView::Array(choices)) => if choices.len() > 0 {
            choices[0]
        } else {
            JsonView::Null
        },
        _ => JsonView::Null,
    }
}

/// The delta of a frame.
pub open spec fn delta_of(frame: JsonView) -> JsonView {
    match member(choice_of(frame), "delta"@) {
        Some(delta) => delta,
        None => JsonView::Null,
    }
}

/// The text that frames add, one after the other.
pub open spec fn text_told(frames: Seq<JsonView>) -> Seq<char>
    decreases frames.len(),
{
    if frames.len() == 0 {
        Seq::empty()
    } else {
        text_told(frames.drop_last()) + text_or_nothing(
            member(delta_of(frames.last()), "content"@),
        )
    }
}

/// The fragments of tool calls in frames, one after the other.
pub open spec fn fragments_told(frames: Seq<JsonView>) -> Seq<JsonView>
    decreases frames.len(),
{
    if frames.len() == 0 {
        Seq::empty()
    } else {
        fragments_told(frames.drop_last()) + match member(
            delta_of(frames.last()),
            "tool_calls"@,
        ) {
            Some(JsonView::Array(fragments)) => fragments,
            _ => Seq::empty(),
        }
    }
}

/// What a fragment adds to the id, the name or the arguments of its call.
pub open spec fn piece(fragment: JsonView, key: Seq<char>) -> Seq<char> {
    if key == "id"@ {
        text_or_nothing(member(fragment, "id"@))
    } else {
        match member(fragment, "function"@) {
            Some(function) => text_or_nothing(member(function, key)),
            None => Seq::empty(),
        }
    }
}

/// What the fragments of one call say of its id, its name or its arguments, one after the
/// other. Fragments belong together by their index.
pub open spec fn pieces(fragments: Seq<JsonView>, index: int, key: Seq<char>) -> Seq<char>
    decreases fragments.len(),
{
    if fragments.len() == 0 {
        Seq::empty()
    } else {
        pieces(fragments.drop_last(), index, key) + if member(fragments.last(), "index"@) == Some(
            JsonView::Integer(index),
        ) {
            piece(fragments.last(), key)
        } else {
            Seq::empty()
        }
    }
}

/// The finish reason that frames name last.
pub open spec fn reason_told(frames: Seq<JsonView>, before: Option<Seq<char>>) -> Option<Seq<char>>
    decreases frames.len(),
{
    if frames.len() == 0 {
        before
    } else {
        match member(choice_of(frames.last()), "finish_reason"@) {
            Some(JsonView::Text(reason)) => Some(reason),
            _ => reason_told(frames.drop_last(), before),
        }
    }
}

/// The usage that frames tell last.
pub open spec fn usage_told(frames: Seq<JsonView>, before: JsonView) -> JsonView
    decreases frames.len(),
{
    if frames.len() == 0 {
        before
    } else {
        match member(frames.last(), "usage"@) {
            None | Some(JsonView::Null) => usage_told(frames.drop_last(), before),
            Some(usage) => usage,
        }
    }
}

/// Whether the calls have grown by fragments.
spec fn calls_grown(
    before: Seq<Option<StreamCallView>>,
    after: Seq<Option<StreamCallView>>,
    fragments: Seq<JsonView>,
) -> bool {
    forall|i: int|
        0 <= i ==> {
            let call = #[trigger] call_at(after, i);
            &&& call.id == call_at(before, i).id + pieces(fragments, i, "id"@)
            &&& call.name == call_at(before, i).name + pieces(fragments, i, "name"@)
            &&& call.arguments == call_at(before, i).arguments + pieces(
                fragments,
                i,
                "arguments"@,
            )
        }
}

/// Whether a decoder has taken up frames.
spec fn taken_up(before: DecoderView, after: DecoderView, frames: Seq<JsonView>) -> bool {
    &&& after.content == before.content + text_told(frames)
    &&& calls_grown(before.calls, after.calls, fragments_told(frames))
    &&& after.finish_reason == reason_told(frames, before.finish_reason)
    &&& after.usage == usage_told(frames, before.usage)
}

proof fn lemma_pieces_join(first: Seq<JsonView>, second: Seq<JsonView>, index: int, key: Seq<char>)
    ensures
        pieces(first + second, index, key) == pieces(first, index, key) + pieces(
            second,
            index,
            key,
        ),
    decreases second.len(),
{
    if second.len() == 0 {
        assert(first + second =~= first);
        assert(pieces(first, index, key) + Seq::<char>::empty() =~= pieces(first, index, key));
    } else {
        assert((first + second).drop_last() =~= first + second.drop_last());
        assert((first + second).last() == second.last());
        lemma_pieces_join(first, second.drop_last(), index, key);
        let one = pieces(first, index, key);
        let two = pieces(second.drop_last(), index, key);
        let last = if member(second.last(), "index"@) == Some(JsonView::Integer(index)) {
            piece(second.last(), key)
        } else {
            Seq::empty()
        };
        assert((one + two) + last =~= one + (two + last));
    }
}

proof fn lemma_calls_grown_twice(
    a: Seq<Option<StreamCallView>>,
    b: Seq<Option<StreamCallView>>,
    c: Seq<Option<StreamCallView>>,
    first: Seq<JsonView>,
    second: Seq<JsonView>,
)
    requires
        calls_grown(a, b, first),
        calls_grown(b, c, second),
    ensures
        calls_grown(a, c, first + second),
{
    assert forall|i: int| 0 <= i implies {
        let call = #[trigger] call_at(c, i);
        &&& call.id == call_at(a, i).id + pieces(first + second, i, "id"@)
        &&& call.name == call_at(a, i).name + pieces(first + second, i, "name"@)
        &&& call.arguments == call_at(a, i).arguments + pieces(first + second, i, "arguments"@)
    } by {
        let middle = call_at(b, i);
        lemma_pieces_join(first, second, i, "id"@);
        lemma_pieces_join(first, second, i, "name"@);
        lemma_pieces_join(first, second, i, "arguments"@);
        assert((call_at(a, i).id + pieces(first, i, "id"@)) + pieces(second, i, "id"@) =~= call_at(
            a,
            i,
        ).id + (pieces(first, i, "id"@) + pieces(second, i, "id"@)));
        assert((call_at(a, i).name + pieces(first, i, "name"@)) + pieces(second, i, "name"@)
            =~= call_at(a, i).name + (pieces(first, i, "name"@) + pieces(second, i, "name"@)));
        assert((call_at(a, i).arguments + pieces(first, i, "arguments"@)) + pieces(
            second,
            i,
            "arguments"@,
        ) =~= call_at(a, i).arguments + (pieces(first, i, "arguments"@) + pieces(
            second,
            i,
            "arguments"@,
        )));
    }
}

proof fn lemma_nothing_grown(calls: Seq<Option<StreamCallView>>)
    ensures
        calls_grown(calls, calls, Seq::empty()),
{
    assert forall|i: int| 0 <= i implies {
        let call = #[trigger] call_at(calls, i);
        &&& call.id == call_at(calls, i).id + pieces(Seq::empty(), i, "id"@)
        &&& call.name == call_at(calls, i).name + pieces(Seq::empty(), i, "name"@)
        &&& call.arguments == call_at(calls, i).arguments + pieces(Seq::empty(), i, "arguments"@)
    } by {
        let call = call_at(calls, i);
        assert(call.id + Seq::<char>::empty() =~= call.id);
        assert(call.name + Seq::<char>::empty() =~= call.name);
        assert(call.arguments + Seq::<char>::empty() =~= call.arguments);
    }
}

proof fn lemma_call_grows(decoder: DecoderView, fragment: JsonView)
    requires
        call_step(decoder, fragment).failure is None,
    ensures
        calls_grown(decoder.calls, call_step(decoder, fragment).decoder.calls, seq![fragment]),
{
    reveal_strlit("id");
    reveal_strlit("name");
    reveal_strlit("arguments");
    assert("id"@.len() == 2 && "name"@.len() == 4 && "arguments"@.len() == 9);
    let before = decoder.calls;
    let after = call_step(decoder, fragment).decoder.calls;
    assert forall|i: int| 0 <= i implies {
        let call = #[trigger] call_at(after, i);
        &&& call.id == call_at(before, i).id + pieces(seq![fragment], i, "id"@)
        &&& call.name == call_at(before, i).name + pieces(seq![fragment], i, "name"@)
        &&& call.arguments == call_at(before, i).arguments + pieces(
            seq![fragment],
            i,
            "arguments"@,
        )
    } by {
        assert(seq![fragment].drop_last() =~= Seq::<JsonView>::empty());
        assert(seq![fragment].last() == fragment);
        reveal_with_fuel(pieces, 2);
        let empty = Seq::<char>::empty();
        let call = call_at(before, i);
        assert(empty + piece(fragment, "id"@) =~= piece(fragment, "id"@));
        assert(empty + piece(fragment, "name"@) =~= piece(fragment, "name"@));
        assert(empty + piece(fragment, "arguments"@) =~= piece(fragment, "arguments"@));
        assert(empty + empty =~= empty);
        assert(call.id + empty =~= call.id);
        assert(call.name + empty =~= call.name);
        assert(call.arguments + empty =~= call.arguments);
    }
}

proof fn lemma_calls_grow(decoder: DecoderView, fragments: Seq<JsonView>, at: int)
    requires
        0 <= at <= fragments.len(),
        calls_step(decoder, fragments, at).failure is None,
    ensures
        calls_grown(
            decoder.calls,
            calls_step(decoder, fragments, at).decoder.calls,
            fragments.skip(at),
        ),
        ({
            let after = calls_step(decoder, fragments, at).decoder;
            after == (DecoderView { calls: after.calls, ..decoder })
        }),
    decreases fragments.len() - at,
{
    if at == fragments.len() {
        assert(fragments.skip(at) =~= Seq::empty());
        lemma_nothing_grown(decoder.calls);
    } else {
        let step = call_step(decoder, fragments[at]);
        lemma_call_grows(decoder, fragments[at]);
        lemma_calls_grow(step.decoder, fragments, at + 1);
        assert(fragments.skip(at) =~= seq![fragments[at]] + fragments.skip(at + 1));
        lemma_calls_grown_twice(
            decoder.calls,
            step.decoder.calls,
            calls_step(step.decoder, fragments, at + 1).decoder.calls,
            seq![fragments[at]],
            fragments.skip(at + 1),
        );
    }
}

proof fn lemma_frame_taken_up(decoder: DecoderView, frame: JsonView)
    requires
        frame_step(decoder, frame).failure is None,
    ensures
        taken_up(decoder, frame_step(decoder, frame).decoder, seq![frame]),
{
    let frames = seq![frame];
    let after = frame_step(decoder, frame).decoder;
    assert(frames.drop_last() =~= Seq::<JsonView>::empty());
    assert(frames.last() == frame);
    reveal_with_fuel(text_told, 2);
    reveal_with_fuel(fragments_told, 2);
    reveal_with_fuel(reason_told, 2);
    reveal_with_fuel(usage_told, 2);
    let empty = Seq::<char>::empty();
    let added = text_or_nothing(member(delta_of(frame), "content"@));
    assert(empty + added =~= added);
    assert(decoder.content + empty =~= decoder.content);
    let found = match member(delta_of(frame), "tool_calls"@) {
        Some(JsonView::Array(fragments)) => fragments,
        _ => Seq::empty(),
    };
    assert(Seq::<JsonView>::empty() + found =~= found);
    assert(fragments_told(frames) == found);
    let counted = match present(frame, "usage"@) {
        Some(usage) => DecoderView { usage, ..decoder },
        None => decoder,
    };
    match member(frame, "choices"@) {
        Some(JsonView::Array(choices)) => {
            if choices.len() == 1 {
                let choice = choices[0];
                match member(choice, "delta"@) {
                    Some(delta) => {
                        let first = text_step(counted, delta);
                        assert(added.len() == 0 ==> added =~= empty);
                        match member(delta, "tool_calls"@) {
                            Some(JsonView::Array(fragments)) => {
                                lemma_calls_grow(first.decoder, fragments, 0);
                                assert(fragments.skip(0) =~= fragments);
                            },
                            _ => {
                                lemma_nothing_grown(decoder.calls);
                            },
                        }
                    },
                    None => {
                        lemma_nothing_grown(decoder.calls);
                    },
                }
            } else {
                lemma_nothing_grown(decoder.calls);
            }
        },
        _ => {},
    }
}

proof fn lemma_told_join(first: Seq<JsonView>, second: Seq<JsonView>, reason: Option<Seq<char>>, usage: JsonView)
    ensures
        text_told(first + second) == text_told(first) + text_told(second),
        fragments_told(first + second) == fragments_told(first) + fragments_told(second),
        reason_told(first + second, reason) == reason_told(second, reason_told(first, reason)),
        usage_told(first + second, usage) == usage_told(second, usage_told(first, usage)),
    decreases second.len(),
{
    if second.len() == 0 {
        assert(first + second =~= first);
        assert(text_told(first) + Seq::<char>::empty() =~= text_told(first));
        assert(fragments_told(first) + Seq::<JsonView>::empty() =~= fragments_told(first));
    } else {
        assert((first + second).drop_last() =~= first + second.drop_last());
        assert((first + second).last() == second.last());
        lemma_told_join(first, second.drop_last(), reason, usage);
        let added = text_or_nothing(member(delta_of(second.last()), "content"@));
        assert((text_told(first) + text_told(second.drop_last())) + added =~= text_told(first) + (
        text_told(second.drop_last()) + added));
        let found = match member(delta_of(second.last()), "tool_calls"@) {
            Some(JsonView::Array(fragments)) => fragments,
            _ => Seq::empty(),
        };
        assert((fragments_told(first) + fragments_told(second.drop_last())) + found
            =~= fragments_told(first) + (fragments_told(second.drop_last()) + found));
    }
}

proof fn lemma_taken_up_twice(
    a: DecoderView,
    b: DecoderView,
    c: DecoderView,
    first: Seq<JsonView>,
    second: Seq<JsonView>,
)
    requires
        taken_up(a, b, first),
        taken_up(b, c, second),
    ensures
        taken_up(a, c, first + second),
{
    lemma_told_join(first, second, a.finish_reason, a.usage);
    lemma_calls_grown_twice(
        a.calls,
        b.calls,
        c.calls,
        fragments_told(first),
        fragments_told(second),
    );
    assert((a.content + text_told(first)) + text_told(second) =~= a.content + (text_told(first)
        + text_told(second)));
}

proof fn lemma_nothing_taken_up(before: DecoderView, after: DecoderView)
    requires
        after.content == before.content,
        after.calls == before.calls,
        after.finish_reason == before.finish_reason,
        after.usage == before.usage,
    ensures
        taken_up(before, after, Seq::empty()),
{
    lemma_nothing_grown(before.calls);
    assert(before.content + Seq::<char>::empty() =~= before.content);
}

proof fn lemma_event_taken_up(decoder: DecoderView)
    requires
        event_step(decoder).failure is None,
    ensures
        taken_up(decoder, event_step(decoder).decoder, frame_of(decoder.data)),
{
    let after = event_step(decoder).decoder;
    if decoder.data.len() == 0 || trim_of(decoder.data) == "[DONE]"@ {
        lemma_nothing_taken_up(decoder, after);
    } else {
        let taken = DecoderView { data: Seq::empty(), ..decoder };
        match json_parse(decoder.data) {
            Ok(frame) => {
                lemma_frame_taken_up(taken, frame);
            },
            Err(_) => {},
        }
    }
}

proof fn lemma_line_taken_up(decoder: DecoderView, line: Seq<char>)
    requires
        line_step(decoder, line).failure is None,
    ensures
        taken_up(decoder, line_step(decoder, line).decoder, line_frames(decoder, line)),
{
    if line.len() == 0 {
        lemma_event_taken_up(decoder);
    } else {
        lemma_nothing_taken_up(decoder, line_step(decoder, line).decoder);
    }
}

proof fn lemma_bytes_taken_up(bytes: Seq<u8>)
    requires
        bytes_step(new_decoder(), bytes).failure is None,
    ensures
        taken_up(
            new_decoder(),
            bytes_step(new_decoder(), bytes).decoder,
            stream_frames(bytes),
        ),
    decreases bytes.len(),
{
    if bytes.len() == 0 {
        lemma_nothing_taken_up(new_decoder(), new_decoder());
    } else {
        let front = bytes.drop_last();
        lemma_bytes_taken_up(front);
        let decoder = bytes_step(new_decoder(), front).decoder;
        let after = bytes_step(new_decoder(), bytes).decoder;
        if bytes.last() == 0xa {
            let taken = DecoderView { pending: Seq::empty(), ..decoder };
            let line = without_returns(decode_utf8(decoder.pending));
            lemma_line_taken_up(taken, line);
            assert(taken_up(decoder, after, line_frames(decoder, line)));
            lemma_taken_up_twice(
                new_decoder(),
                decoder,
                after,
                stream_frames(front),
                line_frames(decoder, line),
            );
        } else {
            lemma_nothing_taken_up(decoder, after);
            lemma_taken_up_twice(
                new_decoder(),
                decoder,
                after,
                stream_frames(front),
                Seq::empty(),
            );
        }
    }
}

proof fn lemma_last_taken_up(decoder: DecoderView)
    requires
        last_step(decoder).failure is None,
    ensures
        taken_up(decoder, last_step(decoder).decoder, last_frames(decoder)),
{
    if decoder.pending.len() == 0 {
        lemma_event_taken_up(decoder);
    } else {
        let taken = DecoderView { pending: Seq::empty(), ..decoder };
        let line = without_returns(decode_utf8(decoder.pending));
        lemma_line_taken_up(taken, line);
        let middle = line_step(taken, line).decoder;
        lemma_event_taken_up(middle);
        assert(taken_up(decoder, middle, line_frames(taken, line)));
        lemma_taken_up_twice(
            decoder,
            middle,
            last_step(decoder).decoder,
            line_frames(taken, line),
            frame_of(middle.data),
        );
    }
}

proof fn lemma_stream_taken_up(bytes: Seq<u8>)
    requires
        bytes_step(new_decoder(), bytes).failure is None,
        last_step(bytes_step(new_decoder(), bytes).decoder).failure is None,
    ensures
        taken_up(
            new_decoder(),
            last_step(bytes_step(new_decoder(), bytes).decoder).decoder,
            all_frames(bytes),
        ),
{
    let decoder = bytes_step(new_decoder(), bytes).decoder;
    lemma_bytes_taken_up(bytes);
    lemma_last_taken_up(decoder);
    lemma_taken_up_twice(
        new_decoder(),
        decoder,
        last_step(decoder).decoder,
        stream_frames(bytes),
        last_frames(decoder),
    );
}

// ---------------------------------------------------------------------------
// The answer of a stream
// ---------------------------------------------------------------------------

/// The members of the answer that a complete stream is put together into.
proof fn lemma_assembled(decoder: DecoderView)
    requires
        calls_complete(decoder.calls),
    ensures
        ({
            let body = assembled(decoder);
            &&& member(body, "error"@) is None
            &&& member(body, "usage"@) == Some(decoder.usage)
            &&& member(body, "choices"@) matches Some(JsonView::Array(choices))
            &&& choices.len() == 1
            &&& (decoder.finish_reason matches Some(reason) ==> member(
                choices[0],
                "finish_reason"@,
            ) == Some(JsonView::Text(reason)))
            &&& member(choices[0], "message"@) matches Some(message)
            &&& member(message, "content"@) == Some(JsonView::Text(decoder.content))
            &&& member(message, "tool_calls"@) matches Some(JsonView::Array(calls))
            &&& calls.len() == decoder.calls.len()
            &&& forall|i: int|
                0 <= i < calls.len() ==> {
                    let found = call_at(decoder.calls, i);
                    &&& (call_of(#[trigger] calls[i]) is Ok <==> json_parse(found.arguments) is Ok)
                    &&& (call_of(calls[i]) matches Ok(call) ==> {
                        &&& call.id == found.id
                        &&& call.name == found.name
                        &&& json_parse(found.arguments) == Ok::<JsonView, Seq<char>>(
                            call.arguments,
                        )
                    })
                }
        }),
{
    reveal_strlit("error");
    reveal_strlit("usage");
    reveal_strlit("choices");
    assert("error"@.len() == 5 && "usage"@.len() == 5 && "choices"@.len() == 7);
    assert("error"@[0] != "usage"@[0]);
    reveal_strlit("message");
    reveal_strlit("finish_reason");
    assert("message"@.len() == 7 && "finish_reason"@.len() == 13);
    reveal_strlit("content");
    reveal_strlit("tool_calls");
    assert("content"@.len() == 7 && "tool_calls"@.len() == 10);
    reveal_strlit("id");
    reveal_strlit("type");
    reveal_strlit("function");
    assert("id"@.len() == 2 && "type"@.len() == 4 && "function"@.len() == 8);
    reveal_strlit("name");
    reveal_strlit("arguments");
    assert("name"@.len() == 4 && "arguments"@.len() == 9);
    let calls = assembled_calls(decoder.calls);
    assert forall|i: int| 0 <= i < calls.len() implies {
        let found = call_at(decoder.calls, i);
        &&& (call_of(#[trigger] calls[i]) is Ok <==> json_parse(found.arguments) is Ok)
        &&& (call_of(calls[i]) matches Ok(call) ==> {
            &&& call.id == found.id
            &&& call.name == found.name
            &&& json_parse(found.arguments) == Ok::<JsonView, Seq<char>>(call.arguments)
        })
    } by {
        assert(decoder.calls[i] is Some);
    }
}

/// The answer of a complete stream has the text of its frames, one after the other, as its
/// content. Its call number i has as its id what the fragments with that index say of the
/// id, as its name what they say of the name, and as its arguments the JSON value of what
/// they say of the arguments, each one after the other. The usage is the one that was told
/// last.
pub proof fn law_streamed_answers_say_what_the_frames_say(bytes: Seq<u8>, body: JsonView)
    requires
        bytes_step(new_decoder(), bytes).failure is None,
        finished(bytes_step(new_decoder(), bytes).decoder) == Ok::<JsonView, TransportErrorView>(
            body,
        ),
    ensures
        member(body, "usage"@) == Some(usage_told(all_frames(bytes), JsonView::Null)),
        response_of(body) matches Ok(response) ==> {
            let fragments = fragments_told(all_frames(bytes));
            &&& response.content == text_told(all_frames(bytes))
            &&& forall|i: int|
                0 <= i < response.tool_calls.len() ==> {
                    &&& (#[trigger] response.tool_calls[i]).id == pieces(fragments, i, "id"@)
                    &&& response.tool_calls[i].name == pieces(fragments, i, "name"@)
                    &&& json_parse(pieces(fragments, i, "arguments"@)) == Ok::<
                        JsonView,
                        Seq<char>,
                    >(response.tool_calls[i].arguments)
                }
            &&& forall|i: int|
                response.tool_calls.len() <= i ==> (#[trigger] pieces(
                    fragments,
                    i,
                    "id"@,
                )).len() == 0
            &&& (reason_told(all_frames(bytes), None) == Some("stop"@) ==> response.stop_reason
                == StopReason::EndTurn)
            &&& (reason_told(all_frames(bytes), None) == Some("tool_calls"@)
                ==> response.stop_reason == StopReason::ToolUse)
            &&& (reason_told(all_frames(bytes), None) == Some("length"@) ==> response.stop_reason
                == StopReason::MaxTokens)
        },
        reason_told(all_frames(bytes), None) is Some,
{
    let decoder = bytes_step(new_decoder(), bytes).decoder;
    let last = last_step(decoder).decoder;
    law_only_complete_streams_become_responses(bytes);
    lemma_stream_taken_up(bytes);
    lemma_assembled(last);
    law_answers_are_read_from_the_first_choice(body);
    let frames = all_frames(bytes);
    let fragments = fragments_told(frames);
    let empty = Seq::<char>::empty();
    assert(new_decoder().content + text_told(frames) =~= text_told(frames));
    assert forall|i: int| 0 <= i implies {
        let call = #[trigger] call_at(last.calls, i);
        &&& call.id == pieces(fragments, i, "id"@)
        &&& call.name == pieces(fragments, i, "name"@)
        &&& call.arguments == pieces(fragments, i, "arguments"@)
    } by {
        assert(empty + pieces(fragments, i, "id"@) =~= pieces(fragments, i, "id"@));
        assert(empty + pieces(fragments, i, "name"@) =~= pieces(fragments, i, "name"@));
        assert(empty + pieces(fragments, i, "arguments"@) =~= pieces(
            fragments,
            i,
            "arguments"@,
        ));
    }
    match response_of(body) {
        Ok(response) => {
            assert(response.tool_calls.len() == last.calls.len());
            assert forall|i: int| 0 <= i < response.tool_calls.len() implies {
                &&& (#[trigger] response.tool_calls[i]).id == pieces(fragments, i, "id"@)
                &&& response.tool_calls[i].name == pieces(fragments, i, "name"@)
                &&& json_parse(pieces(fragments, i, "arguments"@)) == Ok::<JsonView, Seq<char>>(
                    response.tool_calls[i].arguments,
                )
            } by {
                let call = call_at(last.calls, i);
            }
            assert forall|i: int| response.tool_calls.len() <= i implies (#[trigger] pieces(
                fragments,
                i,
                "id"@,
            )).len() == 0 by {
                let call = call_at(last.calls, i);
            }
        },
        Err(_) => {},
    }
}

/// A complete stream is read as an answer exactly where the arguments of each of its calls
/// are JSON.
pub proof fn law_streamed_answers_are_read(bytes: Seq<u8>, body: JsonView)
    requires
        bytes_step(new_decoder(), bytes).failure is None,
        finished(bytes_step(new_decoder(), bytes).decoder) == Ok::<JsonView, TransportErrorView>(
            body,
        ),
    ensures
        ({
            let last = last_step(bytes_step(new_decoder(), bytes).decoder).decoder;
            let readable = forall|i: int|
                0 <= i < last.calls.len() ==> json_parse(
                    (#[trigger] call_at(last.calls, i)).arguments,
                ) is Ok;
            &&& readable <==> response_of(body) is Ok
            &&& readable ==> response_of(body)->Ok_0.tool_calls.len() == last.calls.len()
        }),
{
    let last = last_step(bytes_step(new_decoder(), bytes).decoder).decoder;
    lemma_assembled(last);
    law_answers_are_read_from_the_first_choice(body);
    let readable = forall|i: int|
        0 <= i < last.calls.len() ==> json_parse((#[trigger] call_at(last.calls, i)).arguments)
            is Ok;
    let choices = member(body, "choices"@)->0->Array_0;
    let message = member(choices[0], "message"@)->0;
    let calls = member(message, "tool_calls"@)->0->Array_0;
    if readable {
        assert forall|i: int| 0 <= i < calls.len() implies call_of(#[trigger] calls[i]) is Ok by {
            assert(json_parse(call_at(last.calls, i).arguments) is Ok);
        }
        law_readable_answers_are_read(body, choices, message);
    } else if response_of(body) is Ok {
        assert forall|i: int| 0 <= i < last.calls.len() implies json_parse(
            (#[trigger] call_at(last.calls, i)).arguments,
        ) is Ok by {
            assert(call_of(calls[i]) is Ok <==> json_parse(call_at(last.calls, i).arguments) is Ok);
            assert(response_of(body)->Ok_0.tool_calls[i] == call_of(calls[i])->Ok_0);
        }
    }
}

// ---------------------------------------------------------------------------
// Lines
// ---------------------------------------------------------------------------

/// A data line adds its value, and a line feed, to the data of its event, whether or not a
/// space stands in front of the value. Any other line that is not empty adds nothing.
pub proof fn law_data_lines_add_their_value(decoder: DecoderView, value: Seq<char>, other: Seq<char>)
    requires
        !decoder.done,
        other.len() > 0,
        forall|rest: Seq<char>| other != #[trigger] ("data:"@ + rest),
    ensures
        line_step(decoder, "data:"@ + " "@ + value).decoder == (DecoderView {
            data: decoder.data + value + "\n"@,
            ..decoder
        }),
        value.len() == 0 || value[0] != ' ' ==> line_step(decoder, "data:"@ + value) == line_step(
            decoder,
            "data:"@ + " "@ + value,
        ),
        line_step(decoder, other).decoder == decoder,
        line_step(decoder, other).failure is None,
{
    reveal_strlit("data:");
    reveal_strlit(" ");
    let spaced = "data:"@ + " "@ + value;
    let bare = "data:"@ + value;
    assert(spaced.subrange(0, 5) =~= "data:"@);
    assert(bare.subrange(0, 5) =~= "data:"@);
    assert(spaced.skip(5) =~= " "@ + value);
    assert(bare.skip(5) =~= value);
    assert((" "@ + value).subrange(0, 1) =~= " "@);
    assert((" "@ + value).skip(1) =~= value);
    if value.len() > 0 && value[0] != ' ' {
        assert(value.subrange(0, 1)[0] != " "@[0]);
    }
    if begins(other, "data:"@) {
        assert(other =~= "data:"@ + other.skip(5));
    }
}

/// A byte that is no line feed only waits for the end of its line.
pub proof fn law_bytes_wait_for_their_line(decoder: DecoderView, byte: u8)
    requires
        byte != 0xa,
    ensures
        byte_step(decoder, byte).decoder == (DecoderView {
            pending: decoder.pending.push(byte),
            ..decoder
        }),
        byte_step(decoder, byte).texts.len() == 0,
        byte_step(decoder, byte).failure is Some <==> decoder.pending.len() + 1 > 1_048_576,
{
}

/// A new stream holds nothing: no text, no call, no end and no byte that waits.
pub proof fn law_new_streams_hold_nothing(decoder: Decoder)
    requires
        call_ensures(Decoder::new, (), decoder),
    ensures
        decoder@.pending.len() == 0,
        decoder@.data.len() == 0,
        decoder@.content.len() == 0,
        decoder@.calls.len() == 0,
        decoder@.finish_reason is None,
        decoder@.usage == JsonView::Null,
        !decoder@.done,
{
}

} // verus!
