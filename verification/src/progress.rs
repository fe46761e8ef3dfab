//! Watching model requests: bounded previews, and metrics without text.

use vstd::prelude::*;
use vstd::string::*;

use crate::datum::{lemma_views_push, opt_view, views, Datum};
use crate::json::{bare_object, no_members, text_json, with_member, Json, JsonView};
use crate::model::{
    ModelProgress, ModelProgressEvent, ModelProgressEventView, ModelProgressView,
    RequestTimingsView,
};
use crate::provider::{make_pair, make_triple, pair_object, triple_object};
use crate::text::{chars_of, slice_text};
use vstd::utf8::*;

verus! {

/// The greatest size of a draft, in bytes.
pub const MAX_DRAFT: usize = 65536;

/// How many finished requests are kept.
pub const MAX_COMPLETED: usize = 16;

/// Whether a text from `start` on is the longest end of it that fits a draft.
pub open spec fn longest_end(text: Seq<char>, start: int) -> bool {
    &&& 0 <= start <= text.len()
    &&& encode_utf8(text.skip(start)).len() <= MAX_DRAFT
    &&& start > 0 ==> encode_utf8(text.skip(start - 1)).len() > MAX_DRAFT
}

/// The longest end of a text that fits a draft.
pub open spec fn draft_end(text: Seq<char>) -> Seq<char> {
    text.skip(choose|start: int| longest_end(text, start))
}

proof fn lemma_end_grows(text: Seq<char>, start: int, earlier: int)
    requires
        0 <= earlier <= start <= text.len(),
    ensures
        encode_utf8(text.skip(start)).len() <= encode_utf8(text.skip(earlier)).len(),
    decreases start - earlier,
{
    if earlier < start {
        lemma_end_grows(text, start, earlier + 1);
        assert(text.skip(earlier).drop_first() =~= text.skip(earlier + 1));
    }
}

proof fn lemma_longest_end_unique(text: Seq<char>, a: int, b: int)
    requires
        longest_end(text, a),
        longest_end(text, b),
    ensures
        a == b,
{
    if a < b {
        lemma_end_grows(text, b - 1, a);
    } else if b < a {
        lemma_end_grows(text, a - 1, b);
    }
}

proof fn lemma_end_from(text: Seq<char>, at: int) -> (start: int)
    requires
        0 <= at <= text.len(),
        encode_utf8(text.skip(at)).len() <= MAX_DRAFT,
    ensures
        longest_end(text, start),
    decreases at,
{
    if at > 0 && encode_utf8(text.skip(at - 1)).len() <= MAX_DRAFT {
        lemma_end_from(text, at - 1)
    } else {
        at
    }
}

/// Every text has exactly one longest end that fits a draft, and [`draft_end`] is it.
pub proof fn law_longest_end_exists(text: Seq<char>) -> (start: int)
    ensures
        longest_end(text, start),
        forall|other: int| longest_end(text, other) ==> other == start,
        draft_end(text) == text.skip(start),
{
    assert(text.skip(text.len() as int) =~= Seq::<char>::empty());
    let start = lemma_end_from(text, text.len() as int);
    assert forall|other: int| longest_end(text, other) implies other == start by {
        lemma_longest_end_unique(text, start, other);
    }
    start
}

/// The longest end of a text that fits a draft.
pub fn truncate(text: &str) -> (end: String)
    ensures
        end@ == draft_end(text@),
        exists|start: int| #[trigger] longest_end(text@, start) && end@ == text@.skip(start),
{
    let chars = chars_of(text);
    let mut start: usize = chars.len();
    let mut size: usize = 0;
    assert(text@.skip(start as int) =~= Seq::<char>::empty());
    while start > 0
        invariant
            start <= chars@.len(),
            chars@ == text@,
            size <= MAX_DRAFT,
            size as nat == encode_utf8(text@.skip(start as int)).len(),
        ensures
            start <= chars@.len(),
            chars@ == text@,
            longest_end(text@, start as int),
        decreases start,
    {
        let c = chars[start - 1];
        let n: u32 = c as u32;
        let width: usize = if n <= 0x7f {
            1
        } else if n <= 0x7ff {
            2
        } else if n <= 0xffff {
            3
        } else {
            4
        };
        proof {
            let longer = text@.skip(start - 1);
            assert(longer.drop_first() =~= text@.skip(start as int));
            assert(longer[0] == c);
            char_is_scalar(c);
            assert(encode_scalar(n).len() == width);
        }
        if size + width > MAX_DRAFT {
            break;
        }
        size = size + width;
        start = start - 1;
    }
    proof {
        let chosen = choose|at: int| longest_end(text@, at);
        lemma_longest_end_unique(text@, start as int, chosen);
    }
    let end = slice_text(&chars, start, chars.len());
    assert(end@ =~= text@.skip(start as int));
    end
}

/// Adds a text to a draft, and drops what is too much from its start.
pub fn append_bounded(previous: &mut String, text: &str)
    ensures
        final(previous)@ == draft_end(old(previous)@ + text@),
        exists|start: int| #[trigger]
            longest_end(old(previous)@ + text@, start) && final(previous)@ == (old(previous)@
                + text@).skip(start),
{
    let joined = previous.clone().concat(text);
    *previous = truncate(joined.as_str());
}

/// What watching requests has shown since it was last looked at.
#[derive(Debug)]
pub struct ProgressSnapshot {
    pub draft: Option<ModelProgressEvent>,
    pub completed: Vec<ModelProgressEvent>,
    pub error: Option<String>,
}

/// The model of [`ProgressSnapshot`].
#[verifier::ext_equal]
pub ghost struct ProgressView {
    pub draft: Option<ModelProgressEventView>,
    pub completed: Seq<ModelProgressEventView>,
    pub error: Option<Seq<char>>,
}

impl View for ProgressSnapshot {
    type V = ProgressView;

    open spec fn view(&self) -> ProgressView {
        ProgressView {
            draft: opt_view(self.draft),
            completed: views(self.completed@),
            error: opt_view(self.error),
        }
    }
}

/// Nothing.
pub open spec fn no_progress() -> ProgressView {
    ProgressView { draft: None, completed: Seq::empty(), error: None }
}

/// Whether two events are about the same request.
pub open spec fn same_request(a: ModelProgressEventView, b: ModelProgressEventView) -> bool {
    a.thread_id == b.thread_id && a.turn_id == b.turn_id && a.iteration == b.iteration
}

/// The draft after a text arrived: it is added to the draft of the same request, and any
/// other draft is replaced.
pub open spec fn drafted(
    draft: Option<ModelProgressEventView>,
    event: ModelProgressEventView,
    text: Seq<char>,
) -> ModelProgressEventView {
    let earlier: Seq<char> = match draft {
        Some(old_draft) => match old_draft.progress {
            ModelProgressView::TextDelta { text: previous } => if same_request(
                old_draft,
                event,
            ) {
                previous
            } else {
                Seq::empty()
            },
            _ => Seq::empty(),
        },
        None => Seq::empty(),
    };
    ModelProgressEventView {
        progress: ModelProgressView::TextDelta { text: draft_end(earlier + text) },
        ..event
    }
}

/// The last ones of a list.
pub open spec fn last_ones(
    events: Seq<ModelProgressEventView>,
    count: nat,
) -> Seq<ModelProgressEventView> {
    if events.len() > count {
        events.skip(events.len() - count)
    } else {
        events
    }
}

/// What is shown after an event. `write_error` is why the metrics of a finished request
/// could not be written, if they could not.
pub open spec fn progressed(
    shown: ProgressView,
    event: ModelProgressEventView,
    write_error: Option<Seq<char>>,
) -> ProgressView {
    match event.progress {
        ModelProgressView::Started => ProgressView { draft: Some(event), ..shown },
        ModelProgressView::TextDelta { text } => ProgressView {
            draft: Some(drafted(shown.draft, event, text)),
            ..shown
        },
        ModelProgressView::Finished { .. } => ProgressView {
            completed: last_ones(shown.completed.push(event), MAX_COMPLETED as nat),
            error: match write_error {
                Some(message) => Some("request metrics write failed: "@ + message),
                None => shown.error,
            },
            ..shown
        },
    }
}

/// Milliseconds in the metrics.
pub open spec fn measured_value(value: Option<u64>) -> JsonView {
    match value {
        Some(number) => JsonView::Integer(number as int),
        None => JsonView::Null,
    }
}

/// The timings in the metrics.
pub open spec fn timings_value(timings: RequestTimingsView) -> JsonView {
    JsonView::Object(
        bare_object().insert("dns_ms"@, measured_value(timings.dns_ms)).insert(
            "tcp_connect_ms"@,
            measured_value(timings.tcp_connect_ms),
        ).insert("tls_ms"@, measured_value(timings.tls_ms)).insert(
            "first_byte_ms"@,
            measured_value(timings.first_byte_ms),
        ).insert("first_text_ms"@, measured_value(timings.first_text_ms)).insert(
            "total_ms"@,
            JsonView::Integer(timings.total_ms as int),
        ),
    )
}

/// The metrics of a finished request. They hold no text of it, and other events have none.
pub open spec fn metrics_of(event: ModelProgressEventView) -> Option<JsonView> {
    match event.progress {
        ModelProgressView::Finished { timings, outcome } => Some(
            pair_object(
                "version"@,
                JsonView::Integer(1),
                "request"@,
                JsonView::Object(
                    bare_object().insert("thread_id"@, JsonView::Text(event.thread_id)).insert(
                        "turn_id"@,
                        JsonView::Text(event.turn_id),
                    ).insert("iteration"@, JsonView::Integer(event.iteration as int)).insert(
                        "progress"@,
                        triple_object(
                            "type"@,
                            JsonView::Text("finished"@),
                            "timings"@,
                            timings_value(timings),
                            "outcome"@,
                            JsonView::Text(outcome),
                        ),
                    ),
                ),
            ),
        ),
        _ => None,
    }
}

fn make_measured(value: Option<u64>) -> (json: Json)
    ensures
        json@ == measured_value(value),
{
    match value {
        Some(number) => Json::Unsigned(number),
        None => Json::Null,
    }
}

/// The metrics of a finished request, which the host adds to their file.
pub fn metrics_record(event: &ModelProgressEvent) -> (record: Option<Json>)
    ensures
        opt_view(record) == metrics_of(event@),
{
    match &event.progress {
        ModelProgress::Finished { timings, outcome } => {
            let members = with_member(
                with_member(
                    with_member(
                        with_member(
                            with_member(
                                with_member(
                                    no_members(),
                                    "dns_ms",
                                    make_measured(timings.dns_ms),
                                ),
                                "tcp_connect_ms",
                                make_measured(timings.tcp_connect_ms),
                            ),
                            "tls_ms",
                            make_measured(timings.tls_ms),
                        ),
                        "first_byte_ms",
                        make_measured(timings.first_byte_ms),
                    ),
                    "first_text_ms",
                    make_measured(timings.first_text_ms),
                ),
                "total_ms",
                Json::Unsigned(timings.total_ms),
            );
            let progress = make_triple(
                "type",
                text_json("finished"),
                "timings",
                Json::Object(members),
                "outcome",
                text_json(outcome.as_str()),
            );
            let request = Json::Object(
                with_member(
                    with_member(
                        with_member(
                            with_member(
                                no_members(),
                                "thread_id",
                                text_json(event.thread_id.as_str()),
                            ),
                            "turn_id",
                            text_json(event.turn_id.as_str()),
                        ),
                        "iteration",
                        Json::Unsigned(event.iteration as u64),
                    ),
                    "progress",
                    progress,
                ),
            );
            Some(make_pair("version", Json::Unsigned(1), "request", request))
        },
        _ => None,
    }
}

/// Coalesces previews instead of queuing every token. Diagnostics are separate
/// from the runtime journal and never store text deltas or request bodies.
#[derive(Debug)]
pub struct ModelProgressBuffer {
    state: ProgressSnapshot,
}

impl View for ModelProgressBuffer {
    type V = ProgressView;

    closed spec fn view(&self) -> ProgressView {
        self.state@
    }
}

impl ModelProgressBuffer {
    pub fn new() -> (buffer: Self)
        ensures
            buffer@ == no_progress(),
    {
        let buffer = ModelProgressBuffer {
            state: ProgressSnapshot { draft: None, completed: Vec::new(), error: None },
        };
        assert(views(buffer.state.completed@) =~= Seq::empty());
        buffer
    }

    /// What was shown since this was last asked.
    pub fn take(&mut self) -> (snapshot: ProgressSnapshot)
        ensures
            snapshot@ == old(self)@,
            final(self)@ == no_progress(),
    {
        let mut snapshot = ProgressSnapshot { draft: None, completed: Vec::new(), error: None };
        std::mem::swap(&mut snapshot, &mut self.state);
        assert(views(self.state.completed@) =~= Seq::empty());
        snapshot
    }

    fn take_text(&mut self, event: &ModelProgressEvent, text: &str)
        requires
            event@.progress == (ModelProgressView::TextDelta { text: text@ }),
        ensures
            final(self)@ == (ProgressView {
                draft: Some(drafted(old(self)@.draft, event@, text@)),
                ..old(self)@
            }),
    {
        let mut joined = String::new();
        assert(joined@ =~= Seq::<char>::empty());
        match &self.state.draft {
            Some(draft) => {
                match &draft.progress {
                    ModelProgress::TextDelta { text: previous } => {
                        if draft.turn_id.same(&event.turn_id) && draft.iteration == event.iteration
                            && draft.thread_id.same(&event.thread_id) {
                            joined = previous.clone();
                        }
                    },
                    _ => {},
                }
            },
            None => {},
        }
        append_bounded(&mut joined, text);
        self.state.draft = Some(
            ModelProgressEvent {
                thread_id: event.thread_id.clone(),
                turn_id: event.turn_id.clone(),
                iteration: event.iteration,
                progress: ModelProgress::TextDelta { text: joined },
            },
        );
    }

    fn keep_completed(&mut self, event: &ModelProgressEvent)
        ensures
            final(self)@ == (ProgressView {
                completed: last_ones(old(self)@.completed.push(event@), MAX_COMPLETED as nat),
                ..old(self)@
            }),
    {
        let ghost before = views(self.state.completed@);
        let copy = event.clone();
        proof {
            lemma_views_push(self.state.completed@, copy);
        }
        self.state.completed.push(copy);
        let ghost grown = before.push(event@);
        let ghost mut dropped: int = 0;
        assert(grown.skip(0) =~= grown);
        while self.state.completed.len() > MAX_COMPLETED
            invariant
                0 <= dropped <= grown.len(),
                self.state.completed@.len() == grown.len() - dropped,
                dropped > 0 ==> self.state.completed@.len() >= MAX_COMPLETED,
                views(self.state.completed@) == grown.skip(dropped),
                self.state.draft == old(self).state.draft,
                self.state.error == old(self).state.error,
            decreases self.state.completed@.len(),
        {
            let ghost earlier = self.state.completed@;
            let _ = self.state.completed.remove(0);
            proof {
                assert(views(self.state.completed@) =~= views(earlier).skip(1));
                assert(grown.skip(dropped).skip(1) =~= grown.skip(dropped + 1));
                dropped = dropped + 1;
            }
        }
        assert(views(self.state.completed@) =~= last_ones(grown, MAX_COMPLETED as nat));
    }

    /// Takes an event. `write_error` is why the metrics of a finished request could not be
    /// written, if they could not.
    pub fn on_progress(&mut self, event: &ModelProgressEvent, write_error: Option<String>)
        ensures
            final(self)@ == progressed(old(self)@, event@, opt_view(write_error)),
    {
        match &event.progress {
            ModelProgress::Started => {
                self.state.draft = Some(event.clone());
            },
            ModelProgress::TextDelta { text } => {
                self.take_text(event, text.as_str());
            },
            ModelProgress::Finished { .. } => {
                match write_error {
                    Some(message) => {
                        self.state.error = Some(
                            "request metrics write failed: ".to_owned().concat(message.as_str()),
                        );
                    },
                    None => {},
                }
                self.keep_completed(event);
            },
        }
    }
}

/// A draft is bounded, and it ends as the text that last arrived does: of a text it is the
/// longest end that fits.
pub proof fn law_drafts_are_bounded(text: Seq<char>)
    ensures
        exists|start: int| #[trigger]
            longest_end(text, start) && draft_end(text) == text.skip(start),
        encode_utf8(draft_end(text)).len() <= MAX_DRAFT,
        encode_utf8(text).len() <= MAX_DRAFT ==> draft_end(text) == text,
{
    let start = law_longest_end_exists(text);
    if encode_utf8(text).len() <= MAX_DRAFT {
        assert(text.skip(0) =~= text);
        assert(longest_end(text, 0));
    }
}

/// A preview of another request is never continued: the draft of a new request holds its own
/// text alone.
pub proof fn law_stale_previews_are_replaced(
    draft: ModelProgressEventView,
    event: ModelProgressEventView,
    text: Seq<char>,
)
    requires
        !same_request(draft, event),
    ensures
        drafted(Some(draft), event, text) == (ModelProgressEventView {
            progress: ModelProgressView::TextDelta { text: draft_end(text) },
            ..event
        }),
{
    assert(Seq::<char>::empty() + text =~= text);
}

} // verus!
