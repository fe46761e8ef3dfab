//! The state of a terminal session, and what it shows.
//! 
//! The host reads keys, prints the screen and runs the turns.

use vstd::prelude::*;
use vstd::string::*;

use crate::datum::{lemma_views_concat, lemma_views_push, opt_view, res_view, views, Datum};
use crate::approval::{
    ApprovalDecision, ApprovalDecisionView, ApprovalRequest, ApprovalRequestView,
};
use crate::event::{RuntimeEvent, RuntimeEventView};
use crate::id::ThreadId;
use crate::json::json_text;
use crate::protocol::{
    CanonicalActionView, ReceiptStatus, ToolCall, ToolCallView, ToolReceiptView,
};
use crate::text::{
    chars_of, first_index, join, join_of, lemma_first_index, lemma_first_index_is, same_text,
    slice_text, trim, trim_of,
};

verus! {

/// How the terminal looks.
#[derive(Debug, PartialEq, Eq)]
pub struct TuiConfig {
    pub title: String,
    pub refresh_interval_ms: u64,
    pub maximum_log_entries: usize,
}

/// The model of [`TuiConfig`].
#[verifier::ext_equal]
pub ghost struct TuiConfigView {
    pub title: Seq<char>,
    pub refresh_interval_ms: u64,
    pub maximum_log_entries: usize,
}

impl View for TuiConfig {
    type V = TuiConfigView;

    open spec fn view(&self) -> TuiConfigView {
        TuiConfigView {
            title: self.title@,
            refresh_interval_ms: self.refresh_interval_ms,
            maximum_log_entries: self.maximum_log_entries,
        }
    }
}

impl Datum for TuiConfig {
    fn snapshot(&self) -> (copy: Self) {
        TuiConfig {
            title: self.title.snapshot(),
            refresh_interval_ms: self.refresh_interval_ms,
            maximum_log_entries: self.maximum_log_entries,
        }
    }

    fn same(&self, other: &Self) -> (equal: bool) {
        self.title.same(&other.title) && self.refresh_interval_ms == other.refresh_interval_ms
            && self.maximum_log_entries == other.maximum_log_entries
    }
}

impl Clone for TuiConfig {
    fn clone(&self) -> (copy: Self)
        ensures
            copy@ == self@,
    {
        self.snapshot()
    }
}

impl Default for TuiConfig {
    fn default() -> (config: Self)
        ensures
            config@ == (TuiConfigView {
                title: "Agent Harness"@,
                refresh_interval_ms: 50,
                maximum_log_entries: 2000,
            }),
    {
        TuiConfig {
            title: "Agent Harness".to_owned(),
            refresh_interval_ms: 50,
            maximum_log_entries: 2000,
        }
    }
}

/// Why the terminal stopped.
#[derive(Debug, PartialEq, Eq)]
pub enum TuiError {
    Io(String),
}

/// The model of [`TuiError`].
#[verifier::ext_equal]
pub ghost enum TuiErrorView {
    Io(Seq<char>),
}

impl View for TuiError {
    type V = TuiErrorView;

    open spec fn view(&self) -> TuiErrorView {
        match *self {
            TuiError::Io(x0) => TuiErrorView::Io(x0@),
        }
    }
}

impl Datum for TuiError {
    fn snapshot(&self) -> (copy: Self) {
        match self {
            TuiError::Io(x0) => TuiError::Io(x0.snapshot()),
        }
    }

    fn same(&self, other: &Self) -> (equal: bool) {
        match (self, other) {
            (TuiError::Io(x0), TuiError::Io(y0)) => x0.same(y0),
        }
    }
}

impl Clone for TuiError {
    fn clone(&self) -> (copy: Self)
        ensures
            copy@ == self@,
    {
        self.snapshot()
    }
}

impl TuiError {
    pub fn to_text(&self) -> (text: String)
        ensures
            text@ == (match self@ {
                TuiErrorView::Io(detail) => "terminal I/O error: "@ + detail,
            }),
    {
        match self {
            TuiError::Io(detail) => "terminal I/O error: ".to_owned().concat(detail.as_str()),
        }
    }
}

// ---------------------------------------------------------------------------
// Wrapping
// ---------------------------------------------------------------------------

/// A text cut into chunks of `width` characters. Only the last one may be shorter.
pub open spec fn chunks_of(piece: Seq<char>, width: nat) -> Seq<Seq<char>>
    decreases piece.len(),
{
    if width == 0 || piece.len() <= width {
        seq![piece]
    } else {
        seq![piece.take(width as int)] + chunks_of(piece.skip(width as int), width)
    }
}

/// The pieces of a text between its line feeds, each cut into chunks.
pub open spec fn wrapped_pieces(text: Seq<char>, width: nat) -> Seq<Seq<char>>
    decreases text.len(),
{
    let end = first_index(text, '\n');
    if 0 <= end < text.len() {
        chunks_of(text.take(end), width) + wrapped_pieces(text.skip(end + 1), width)
    } else {
        chunks_of(text, width)
    }
}

/// A text in lines of at most `width` characters.
pub open spec fn wrapped(line: Seq<char>, width: nat) -> Seq<Seq<char>> {
    if width == 0 {
        seq![Seq::empty()]
    } else {
        wrapped_pieces(line, width)
    }
}

/// Adds the chunks of a piece to the lines.
fn push_chunks(lines: &mut Vec<String>, chars: &Vec<char>, from: usize, to: usize, width: usize)
    requires
        from <= to <= chars@.len(),
        width > 0,
    ensures
        views(final(lines)@) == views(old(lines)@) + chunks_of(
            chars@.subrange(from as int, to as int),
            width as nat,
        ),
{
    let ghost before = views(lines@);
    let ghost all = chunks_of(chars@.subrange(from as int, to as int), width as nat);
    let mut at: usize = from;
    while to - at > width
        invariant
            from <= at <= to <= chars@.len(),
            width > 0,
            before + all == views(lines@) + chunks_of(
                chars@.subrange(at as int, to as int),
                width as nat,
            ),
        decreases to - at,
    {
        let text = slice_text(chars, at, at + width);
        proof {
            let piece = chars@.subrange(at as int, to as int);
            let rest = chunks_of(piece.skip(width as int), width as nat);
            assert(piece.take(width as int) =~= text@);
            assert(piece.skip(width as int) =~= chars@.subrange(at + width, to as int));
            lemma_views_push(lines@, text);
            assert(views(lines@) + (seq![text@] + rest) =~= views(lines@).push(text@) + rest);
        }
        lines.push(text);
        at = at + width;
    }
    let text = slice_text(chars, at, to);
    proof {
        lemma_views_push(lines@, text);
        assert(views(lines@) + seq![text@] =~= views(lines@).push(text@));
    }
    lines.push(text);
}

/// Wraps a text into lines of at most `width` characters.
pub fn wrap_line(line: &str, width: usize) -> (lines: Vec<String>)
    ensures
        views(lines@) == wrapped(line@, width as nat),
{
    let mut lines: Vec<String> = Vec::new();
    if width == 0 {
        lines.push(String::new());
        assert(views(lines@) =~= seq![Seq::<char>::empty()]);
        return lines;
    }
    let chars = chars_of(line);
    let mut from: usize = 0;
    let mut end: usize = 0;
    proof {
        assert(chars@.skip(0) =~= line@);
        assert(wrapped(line@, width as nat) =~= views(lines@) + wrapped_pieces(
            chars@.skip(0),
            width as nat,
        ));
    }
    while end < chars.len()
        invariant
            from <= end <= chars@.len(),
            width > 0,
            forall|i: int| from <= i < end ==> chars@[i] != '\n',
            wrapped(line@, width as nat) == views(lines@) + wrapped_pieces(
                chars@.skip(from as int),
                width as nat,
            ),
        decreases chars@.len() - end,
    {
        if chars[end] == '\n' {
            let ghost before = views(lines@);
            proof {
                let rest = chars@.skip(from as int);
                assert forall|i: int| 0 <= i < end - from implies rest[i] != '\n' by {
                    assert(rest[i] == chars@[from + i]);
                }
                assert(rest[end - from] == '\n');
                lemma_first_index_is(rest, '\n', end - from);
                assert(rest.take(end - from) =~= chars@.subrange(from as int, end as int));
                assert(rest.skip(end - from + 1) =~= chars@.skip(end + 1));
            }
            push_chunks(&mut lines, &chars, from, end, width);
            proof {
                let piece = chunks_of(chars@.subrange(from as int, end as int), width as nat);
                let later = wrapped_pieces(chars@.skip(end + 1), width as nat);
                assert(before + (piece + later) =~= before + piece + later);
            }
            from = end + 1;
        }
        end = end + 1;
    }
    proof {
        let rest = chars@.skip(from as int);
        assert forall|i: int| 0 <= i < end - from implies rest[i] != '\n' by {
            assert(rest[i] == chars@[from + i]);
        }
        lemma_first_index_is(rest, '\n', end - from);
        assert(rest =~= chars@.subrange(from as int, end as int));
    }
    push_chunks(&mut lines, &chars, from, end, width);
    lines
}

/// The lines one after the other.
pub open spec fn rejoined(lines: Seq<Seq<char>>) -> Seq<char>
    decreases lines.len(),
{
    if lines.len() == 0 {
        Seq::empty()
    } else {
        rejoined(lines.drop_last()) + lines.last()
    }
}

/// A text without its line feeds.
pub open spec fn without_feeds(text: Seq<char>) -> Seq<char>
    decreases text.len(),
{
    if text.len() == 0 {
        Seq::empty()
    } else if text.last() == '\n' {
        without_feeds(text.drop_last())
    } else {
        without_feeds(text.drop_last()).push(text.last())
    }
}

proof fn lemma_rejoined_concat(left: Seq<Seq<char>>, right: Seq<Seq<char>>)
    ensures
        rejoined(left + right) == rejoined(left) + rejoined(right),
    decreases right.len(),
{
    if right.len() == 0 {
        assert(left + right =~= left);
        assert(rejoined(left) + rejoined(right) =~= rejoined(left));
    } else {
        let both = left + right;
        assert(both.drop_last() =~= left + right.drop_last());
        lemma_rejoined_concat(left, right.drop_last());
        assert(rejoined(left) + rejoined(right.drop_last()) + right.last() =~= rejoined(left) + (
        rejoined(right.drop_last()) + right.last()));
    }
}

proof fn lemma_feeds_concat(left: Seq<char>, right: Seq<char>)
    ensures
        without_feeds(left + right) == without_feeds(left) + without_feeds(right),
    decreases right.len(),
{
    if right.len() == 0 {
        assert(left + right =~= left);
        assert(without_feeds(left) + without_feeds(right) =~= without_feeds(left));
    } else {
        let both = left + right;
        assert(both.drop_last() =~= left + right.drop_last());
        lemma_feeds_concat(left, right.drop_last());
        assert(without_feeds(both) =~= without_feeds(left) + without_feeds(right));
    }
}

proof fn lemma_no_feeds(text: Seq<char>)
    requires
        !text.contains('\n'),
    ensures
        without_feeds(text) == text,
    decreases text.len(),
{
    if text.len() > 0 {
        let front = text.drop_last();
        assert(text.last() != '\n') by {
            assert(text[text.len() - 1] == text.last());
        }
        assert(!front.contains('\n')) by {
            if front.contains('\n') {
                let i = choose|i: int| 0 <= i < front.len() && front[i] == '\n';
                assert(text[i] == '\n');
            }
        }
        lemma_no_feeds(front);
        assert(front.push(text.last()) =~= text);
    } else {
        assert(without_feeds(text) =~= text);
    }
}

proof fn lemma_one_line(line: Seq<char>)
    ensures
        rejoined(seq![line]) == line,
{
    assert(seq![line].drop_last() =~= Seq::<Seq<char>>::empty());
    assert(rejoined(Seq::<Seq<char>>::empty()) =~= Seq::<char>::empty());
    assert(Seq::<char>::empty() + line =~= line);
}

proof fn lemma_chunks(piece: Seq<char>, width: nat)
    requires
        width > 0,
        !piece.contains('\n'),
    ensures
        rejoined(chunks_of(piece, width)) == piece,
        forall|i: int|
            0 <= i < chunks_of(piece, width).len() ==> (#[trigger] chunks_of(piece, width)[i]).len()
                <= width && !chunks_of(piece, width)[i].contains('\n'),
    decreases piece.len(),
{
    if piece.len() <= width {
        lemma_one_line(piece);
    } else {
        let head = piece.take(width as int);
        let rest = piece.skip(width as int);
        assert(!head.contains('\n')) by {
            if head.contains('\n') {
                let i = choose|i: int| 0 <= i < head.len() && head[i] == '\n';
                assert(piece[i] == '\n');
            }
        }
        assert(!rest.contains('\n')) by {
            if rest.contains('\n') {
                let i = choose|i: int| 0 <= i < rest.len() && rest[i] == '\n';
                assert(piece[width + i] == '\n');
            }
        }
        lemma_chunks(rest, width);
        lemma_one_line(head);
        lemma_rejoined_concat(seq![head], chunks_of(rest, width));
        assert(head + rest =~= piece);
        let all = chunks_of(piece, width);
        assert forall|i: int| 0 <= i < all.len() implies (#[trigger] all[i]).len() <= width
            && !all[i].contains('\n') by {
            if i > 0 {
                assert(all[i] == chunks_of(rest, width)[i - 1]);
            }
        }
    }
}

proof fn lemma_wrapped_pieces(text: Seq<char>, width: nat)
    requires
        width > 0,
    ensures
        rejoined(wrapped_pieces(text, width)) == without_feeds(text),
        forall|i: int|
            0 <= i < wrapped_pieces(text, width).len() ==> (#[trigger] wrapped_pieces(
                text,
                width,
            )[i]).len() <= width && !wrapped_pieces(text, width)[i].contains('\n'),
    decreases text.len(),
{
    let end = first_index(text, '\n');
    lemma_first_index(text, '\n');
    let piece = text.take(end);
    assert(!piece.contains('\n'));
    lemma_chunks(piece, width);
    lemma_no_feeds(piece);
    if end < text.len() {
        let rest = text.skip(end + 1);
        let feed = seq!['\n'];
        lemma_wrapped_pieces(rest, width);
        lemma_rejoined_concat(chunks_of(piece, width), wrapped_pieces(rest, width));
        assert(text =~= (piece + feed) + rest);
        lemma_feeds_concat(piece + feed, rest);
        assert((piece + feed).drop_last() =~= piece);
        let all = wrapped_pieces(text, width);
        let count = chunks_of(piece, width).len() as int;
        assert forall|i: int| 0 <= i < all.len() implies (#[trigger] all[i]).len() <= width
            && !all[i].contains('\n') by {
            if i < count {
                assert(all[i] == chunks_of(piece, width)[i]);
            } else {
                assert(all[i] == wrapped_pieces(rest, width)[i - count]);
            }
        }
    } else {
        assert(piece =~= text);
    }
}

/// Wrapping keeps the text: its lines, one after the other, are the text without its line
/// feeds.
pub proof fn law_wrapping_keeps_the_text(line: Seq<char>, width: nat)
    requires
        width > 0,
    ensures
        rejoined(wrapped(line, width)) == without_feeds(line),
{
    lemma_wrapped_pieces(line, width);
}

/// Wrapped lines fit: none is wider than asked for, and none holds a line feed.
pub proof fn law_wrapped_lines_fit(line: Seq<char>, width: nat, index: int)
    requires
        0 <= index < wrapped(line, width).len(),
    ensures
        wrapped(line, width)[index].len() <= width,
        !wrapped(line, width)[index].contains('\n'),
{
    if width > 0 {
        lemma_wrapped_pieces(line, width);
    }
}

// ---------------------------------------------------------------------------
// Events
// ---------------------------------------------------------------------------

/// The names of tool calls.
pub open spec fn call_names(calls: Seq<ToolCallView>) -> Seq<Seq<char>> {
    calls.map_values(|call: ToolCallView| call.name)
}

/// How a receipt's status is shown.
pub open spec fn status_label(status: ReceiptStatus) -> Seq<char> {
    match status {
        ReceiptStatus::Succeeded => "ok"@,
        ReceiptStatus::Failed => "failed"@,
        ReceiptStatus::Denied => "denied"@,
        ReceiptStatus::Unknown => "unknown"@,
    }
}

/// What a receipt says: its output, or else its error.
pub open spec fn receipt_detail(receipt: ToolReceiptView) -> Seq<char> {
    match receipt.output {
        Some(output) => json_text(output),
        None => match receipt.error {
            Some(error) => error,
            None => Seq::empty(),
        },
    }
}

/// The line that an event is shown with, if it is shown.
pub open spec fn event_line(event: RuntimeEventView) -> Option<Seq<char>> {
    match event {
        RuntimeEventView::AssistantMessage { content, tool_calls, .. } => if content.len() > 0 {
            Some("assistant: "@ + content)
        } else if tool_calls.len() > 0 {
            Some("assistant requested: "@ + join_of(call_names(tool_calls), ", "@))
        } else {
            None
        },
        RuntimeEventView::ToolPrepared { prepared } => Some(
            "prepared "@ + prepared.action.tool_name + ": "@ + json_text(
                prepared.action.arguments,
            ),
        ),
        RuntimeEventView::ToolReceiptRecorded { receipt } => Some(
            "tool "@ + receipt.tool_name + " ["@ + status_label(receipt.status) + "]: "@
                + receipt_detail(receipt),
        ),
        RuntimeEventView::TurnCancelled => Some("turn cancelled"@),
        RuntimeEventView::TurnFailed { error } => Some("turn failed: "@ + error),
        _ => None,
    }
}

fn list_calls(calls: &Vec<ToolCall>) -> (names: Vec<String>)
    ensures
        views(names@) == call_names(views(calls@)),
{
    let ghost wanted = call_names(views(calls@));
    let mut names: Vec<String> = Vec::new();
    let mut at: usize = 0;
    assert(views(names@) =~= wanted.take(0));
    while at < calls.len()
        invariant
            at <= calls@.len(),
            wanted == call_names(views(calls@)),
            wanted.len() == calls@.len(),
            views(names@) == wanted.take(at as int),
        decreases calls@.len() - at,
    {
        let name = calls[at].name.clone();
        proof {
            assert(wanted.take(at as int + 1) =~= wanted.take(at as int).push(name@));
            lemma_views_push(names@, name);
        }
        names.push(name);
        at = at + 1;
    }
    assert(wanted.take(at as int) =~= wanted);
    names
}

/// The line that an event is shown with.
pub fn format_event(event: &RuntimeEvent) -> (line: Option<String>)
    ensures
        opt_view(line) == event_line(event@),
{
    match event {
        RuntimeEvent::AssistantMessage { content, tool_calls, .. } => {
            assert(views(tool_calls@).len() == tool_calls@.len());
            if content.as_str().unicode_len() > 0 {
                Some("assistant: ".to_owned().concat(content.as_str()))
            } else if tool_calls.len() > 0 {
                Some(
                    "assistant requested: ".to_owned().concat(
                        join(&list_calls(tool_calls), ", ").as_str(),
                    ),
                )
            } else {
                None
            }
        },
        RuntimeEvent::ToolPrepared { prepared } => Some(
            "prepared ".to_owned().concat(prepared.action.tool_name.as_str()).concat(": ").concat(
                prepared.action.arguments.to_text().as_str(),
            ),
        ),
        RuntimeEvent::ToolReceiptRecorded { receipt } => {
            let label = match receipt.status {
                ReceiptStatus::Succeeded => "ok",
                ReceiptStatus::Failed => "failed",
                ReceiptStatus::Denied => "denied",
                ReceiptStatus::Unknown => "unknown",
            };
            let detail = match &receipt.output {
                Some(output) => output.to_text(),
                None => match &receipt.error {
                    Some(error) => error.clone(),
                    None => {
                        let nothing = String::new();
                        assert(nothing@ =~= Seq::<char>::empty());
                        nothing
                    },
                },
            };
            Some(
                "tool ".to_owned().concat(receipt.tool_name.as_str()).concat(" [").concat(
                    label,
                ).concat("]: ").concat(detail.as_str()),
            )
        },
        RuntimeEvent::TurnCancelled => Some("turn cancelled".to_owned()),
        RuntimeEvent::TurnFailed { error } => Some(
            "turn failed: ".to_owned().concat(error.as_str()),
        ),
        _ => None,
    }
}

// ---------------------------------------------------------------------------
// The state of the screen
// ---------------------------------------------------------------------------

/// A key that was pressed.
#[derive(Debug, Clone, Copy, PartialEq, Eq)]
pub enum Key {
    Char(char),
    Backspace,
    Enter,
    Esc,
    Other,
}

/// What a key asks the host to do.
#[derive(Debug)]
pub enum UiAction {
    Nothing,
    /// Leave the terminal.
    Quit,
    /// Ask the running turn to stop.
    Cancel,
    /// Run a turn with this input.
    Start(String),
    /// Answer the approval that was shown.
    Decide(ApprovalDecision),
}

/// The model of [`UiAction`].
#[verifier::ext_equal]
pub ghost enum UiActionView {
    Nothing,
    Quit,
    Cancel,
    Start(Seq<char>),
    Decide(ApprovalDecisionView),
}

impl View for UiAction {
    type V = UiActionView;

    open spec fn view(&self) -> UiActionView {
        match *self {
            UiAction::Nothing => UiActionView::Nothing,
            UiAction::Quit => UiActionView::Quit,
            UiAction::Cancel => UiActionView::Cancel,
            UiAction::Start(input) => UiActionView::Start(input@),
            UiAction::Decide(decision) => UiActionView::Decide(decision@),
        }
    }
}

/// The state of the screen.
#[derive(Debug)]
pub struct UiState {
    pub thread_id: ThreadId,
    pub input: String,
    pub logs: Vec<String>,
    pub running: bool,
    /// Whether there is a turn that can be asked to stop.
    pub cancellable: bool,
    pub current_approval: Option<ApprovalRequest>,
    pub queued_approvals: Vec<ApprovalRequest>,
}

/// The model of [`UiState`].
#[verifier::ext_equal]
pub ghost struct UiView {
    pub thread_id: Seq<char>,
    pub input: Seq<char>,
    pub logs: Seq<Seq<char>>,
    pub running: bool,
    pub cancellable: bool,
    pub current_approval: Option<ApprovalRequestView>,
    pub queued_approvals: Seq<ApprovalRequestView>,
}

impl View for UiState {
    type V = UiView;

    open spec fn view(&self) -> UiView {
        UiView {
            thread_id: self.thread_id@,
            input: self.input@,
            logs: views(self.logs@),
            running: self.running,
            cancellable: self.cancellable,
            current_approval: opt_view(self.current_approval),
            queued_approvals: views(self.queued_approvals@),
        }
    }
}

/// The screen with one more line.
pub open spec fn logged(state: UiView, line: Seq<char>) -> UiView {
    UiView { logs: state.logs.push(line), ..state }
}

/// The screen without its oldest lines beyond a maximum.
pub open spec fn trimmed_logs(state: UiView, maximum: nat) -> UiView {
    UiView {
        logs: if state.logs.len() > maximum {
            state.logs.skip(state.logs.len() - maximum)
        } else {
            state.logs
        },
        ..state
    }
}

/// The screen after an approval was answered: the next one is shown.
pub open spec fn next_approval(state: UiView) -> UiView {
    UiView {
        current_approval: if state.queued_approvals.len() > 0 {
            Some(state.queued_approvals[0])
        } else {
            None
        },
        queued_approvals: if state.queued_approvals.len() > 0 {
            state.queued_approvals.skip(1)
        } else {
            state.queued_approvals
        },
        ..state
    }
}

/// The screen after the shown approval was answered, and the answer. An approval is for the
/// exact action that was asked about.
pub open spec fn answered(state: UiView, approve: bool) -> (UiView, Option<ApprovalDecisionView>) {
    match state.current_approval {
        Some(request) => if approve {
            (
                next_approval(logged(state, "approved: "@ + request.action.tool_name)),
                Some(ApprovalDecisionView::Approved { action: request.action }),
            )
        } else {
            (
                next_approval(logged(state, "denied: "@ + request.action.tool_name)),
                Some(ApprovalDecisionView::Denied { reason: "denied in TUI"@ }),
            )
        },
        None => (next_approval(state), None),
    }
}

/// The action of an answer.
pub open spec fn decision_action(decision: Option<ApprovalDecisionView>) -> UiActionView {
    match decision {
        Some(found) => UiActionView::Decide(found),
        None => UiActionView::Nothing,
    }
}

/// The screen after an input was entered, and what is to be done.
pub open spec fn entered(state: UiView) -> (UiView, UiActionView) {
    let input = trim_of(state.input);
    let cleared = UiView { input: Seq::empty(), ..state };
    if input.len() == 0 {
        (cleared, UiActionView::Nothing)
    } else if input == "/quit"@ || input == "/exit"@ {
        (cleared, UiActionView::Quit)
    } else if input == "/cancel"@ {
        if state.cancellable {
            (logged(cleared, "cancellation requested"@), UiActionView::Cancel)
        } else {
            (cleared, UiActionView::Nothing)
        }
    } else if state.running {
        (logged(cleared, "a turn is already running"@), UiActionView::Nothing)
    } else {
        (
            logged(UiView { running: true, cancellable: true, ..cleared }, "you: "@ + input),
            UiActionView::Start(input),
        )
    }
}

/// The screen after a key, and what is to be done. While an approval is shown, keys answer
/// it or do nothing.
pub open spec fn pressed(state: UiView, key: Key, control: bool, maximum: nat) -> (
    UiView,
    UiActionView,
) {
    if control && key == Key::Char('c') {
        (state, UiActionView::Quit)
    } else if state.current_approval is Some {
        if key == Key::Char('y') || key == Key::Char('Y') {
            let (after, decision) = answered(state, true);
            (after, decision_action(decision))
        } else if key == Key::Char('n') || key == Key::Char('N') || key == Key::Esc {
            let (after, decision) = answered(state, false);
            (after, decision_action(decision))
        } else {
            (state, UiActionView::Nothing)
        }
    } else {
        match key {
            Key::Esc => (state, UiActionView::Quit),
            Key::Char(c) => (
                trimmed_logs(UiView { input: state.input.push(c), ..state }, maximum),
                UiActionView::Nothing,
            ),
            Key::Backspace => (
                trimmed_logs(
                    UiView {
                        input: if state.input.len() > 0 {
                            state.input.drop_last()
                        } else {
                            state.input
                        },
                        ..state
                    },
                    maximum,
                ),
                UiActionView::Nothing,
            ),
            Key::Enter => {
                let (after, action) = entered(state);
                if action == UiActionView::Quit {
                    (after, action)
                } else {
                    (trimmed_logs(after, maximum), action)
                }
            },
            Key::Other => (trimmed_logs(state, maximum), UiActionView::Nothing),
        }
    }
}

/// The screen after a turn ended.
pub open spec fn turn_shown(state: UiView, result: Result<Seq<char>, Seq<char>>) -> UiView {
    logged(
        UiView { running: false, cancellable: false, ..state },
        match result {
            Ok(content) => "turn complete: "@ + content,
            Err(error) => "turn failed: "@ + error,
        },
    )
}

/// The lines of events.
pub open spec fn event_lines(events: Seq<RuntimeEventView>) -> Seq<Seq<char>>
    decreases events.len(),
{
    if events.len() == 0 {
        Seq::empty()
    } else {
        let earlier = event_lines(events.drop_last());
        match event_line(events.last()) {
            Some(line) => earlier.push(line),
            None => earlier,
        }
    }
}

/// The screen after another approval was asked for.
pub open spec fn asked(state: UiView, request: ApprovalRequestView) -> UiView {
    if state.current_approval is None {
        UiView { current_approval: Some(request), ..state }
    } else {
        UiView { queued_approvals: state.queued_approvals.push(request), ..state }
    }
}

/// The screen after every approval was denied, and how many there were.
pub open spec fn all_denied(state: UiView) -> (UiView, nat)
    decreases
            state.queued_approvals.len() + (if state.current_approval is Some {
                1nat
            } else {
                0nat
            }),
{
    match state.current_approval {
        None => (state, 0),
        Some(_) => {
            let (after, count) = all_denied(answered(state, false).0);
            (after, count + 1)
        },
    }
}

impl UiState {
    pub fn new(thread_id: ThreadId) -> (state: Self)
        ensures
            state@ == (UiView {
                thread_id: thread_id@,
                input: Seq::empty(),
                logs: seq!["Type a message. /cancel stops the active turn; /quit exits."@],
                running: false,
                cancellable: false,
                current_approval: None,
                queued_approvals: Seq::empty(),
            }),
    {
        let mut logs: Vec<String> = Vec::new();
        logs.push("Type a message. /cancel stops the active turn; /quit exits.".to_owned());
        let state = UiState {
            thread_id,
            input: String::new(),
            logs,
            running: false,
            cancellable: false,
            current_approval: None,
            queued_approvals: Vec::new(),
        };
        proof {
            assert(state.input@ =~= Seq::<char>::empty());
            assert(views(state.logs@)
                =~= seq!["Type a message. /cancel stops the active turn; /quit exits."@]);
            assert(views(state.queued_approvals@) =~= Seq::empty());
        }
        state
    }

    pub fn push_log(&mut self, line: String)
        ensures
            final(self)@ == logged(old(self)@, line@),
    {
        proof {
            lemma_views_push(self.logs@, line);
        }
        self.logs.push(line);
    }

    fn trim_logs(&mut self, maximum: usize)
        ensures
            final(self)@ == trimmed_logs(old(self)@, maximum as nat),
    {
        let count: usize = self.logs.len();
        if count > maximum {
            let ghost before = self.logs@;
            let kept = self.logs.split_off(count - maximum);
            proof {
                assert(views(kept@) =~= views(before).skip(count - maximum));
            }
            self.logs = kept;
        }
    }

    fn show_next(&mut self)
        ensures
            final(self)@ == next_approval(old(self)@),
    {
        if self.queued_approvals.len() > 0 {
            let ghost before = self.queued_approvals@;
            let next = self.queued_approvals.remove(0);
            proof {
                assert(views(self.queued_approvals@) =~= views(before).skip(1));
                assert(views(before)[0] == next@);
            }
            self.current_approval = Some(next);
        } else {
            self.current_approval = None;
        }
    }

    /// Answers the approval that is shown.
    pub fn resolve_approval(&mut self, approve: bool) -> (decision: Option<ApprovalDecision>)
        ensures
            (final(self)@, opt_view(decision)) == answered(old(self)@, approve),
    {
        let mut current: Option<ApprovalRequest> = None;
        std::mem::swap(&mut current, &mut self.current_approval);
        match current {
            Some(request) => {
                let decision = if approve {
                    self.push_log(
                        "approved: ".to_owned().concat(request.action.tool_name.as_str()),
                    );
                    ApprovalDecision::Approved { action: request.action }
                } else {
                    self.push_log("denied: ".to_owned().concat(request.action.tool_name.as_str()));
                    ApprovalDecision::Denied { reason: "denied in TUI".to_owned() }
                };
                self.show_next();
                Some(decision)
            },
            None => {
                self.show_next();
                None
            },
        }
    }

    /// Denies every approval that is shown or waits. The host answers each of them.
    pub fn deny_pending(&mut self) -> (denied: Vec<ApprovalDecision>)
        ensures
            (final(self)@, denied@.len()) == all_denied(old(self)@),
            forall|i: int|
                0 <= i < denied@.len() ==> (#[trigger] denied@[i])@ == (
                ApprovalDecisionView::Denied { reason: "denied in TUI"@ }),
    {
        let mut denied: Vec<ApprovalDecision> = Vec::new();
        let ghost start = self@;
        while self.current_approval.is_some()
            invariant
                all_denied(start).0 == all_denied(self@).0,
                all_denied(start).1 == denied@.len() + all_denied(self@).1,
                start == old(self)@,
                forall|i: int|
                    0 <= i < denied@.len() ==> (#[trigger] denied@[i])@ == (
                    ApprovalDecisionView::Denied { reason: "denied in TUI"@ }),
            decreases
                    self.queued_approvals@.len() + (if self.current_approval is Some {
                        1nat
                    } else {
                        0nat
                    }),
        {
            let ghost before = self@;
            assert(before.queued_approvals.len() == self.queued_approvals@.len());
            match self.resolve_approval(false) {
                Some(decision) => {
                    denied.push(decision);
                },
                None => {},
            }
            assert(self@.queued_approvals.len() == self.queued_approvals@.len());
        }
        denied
    }

    fn enter(&mut self) -> (action: UiAction)
        ensures
            (final(self)@, action@) == entered(old(self)@),
    {
        let input = trim(self.input.as_str());
        self.input = String::new();
        assert(self.input@ =~= Seq::<char>::empty());
        if input.as_str().unicode_len() == 0 {
            return UiAction::Nothing;
        }
        if same_text(input.as_str(), "/quit") || same_text(input.as_str(), "/exit") {
            return UiAction::Quit;
        }
        if same_text(input.as_str(), "/cancel") {
            if self.cancellable {
                self.push_log("cancellation requested".to_owned());
                return UiAction::Cancel;
            }
            return UiAction::Nothing;
        }
        if self.running {
            self.push_log("a turn is already running".to_owned());
            return UiAction::Nothing;
        }
        self.running = true;
        self.cancellable = true;
        self.push_log("you: ".to_owned().concat(input.as_str()));
        UiAction::Start(input)
    }

    /// Takes a key. `control` says whether the control key was held.
    pub fn handle_key(&mut self, key: Key, control: bool, maximum_logs: usize) -> (action: UiAction)
        ensures
            (final(self)@, action@) == pressed(old(self)@, key, control, maximum_logs as nat),
    {
        if control {
            match key {
                Key::Char(c) => {
                    if c == 'c' {
                        return UiAction::Quit;
                    }
                },
                _ => {},
            }
        }
        if self.current_approval.is_some() {
            let mut answer: Option<bool> = None;
            match key {
                Key::Char(c) => {
                    if c == 'y' || c == 'Y' {
                        answer = Some(true);
                    } else if c == 'n' || c == 'N' {
                        answer = Some(false);
                    }
                },
                Key::Esc => {
                    answer = Some(false);
                },
                _ => {},
            }
            return match answer {
                Some(approve) => match self.resolve_approval(approve) {
                    Some(decision) => UiAction::Decide(decision),
                    None => UiAction::Nothing,
                },
                None => UiAction::Nothing,
            };
        }
        let mut action = UiAction::Nothing;
        match key {
            Key::Esc => {
                return UiAction::Quit;
            },
            Key::Char(c) => {
                self.input.push(c);
            },
            Key::Backspace => {
                let chars = chars_of(self.input.as_str());
                if chars.len() > 0 {
                    let rest = slice_text(&chars, 0, chars.len() - 1);
                    assert(rest@ =~= self.input@.drop_last());
                    self.input = rest;
                }
            },
            Key::Enter => {
                action = self.enter();
                match action {
                    UiAction::Quit => {
                        return UiAction::Quit;
                    },
                    _ => {},
                }
            },
            Key::Other => {},
        }
        self.trim_logs(maximum_logs);
        action
    }

    /// Shows the end of a turn.
    pub fn end_turn(&mut self, result: Result<String, String>)
        ensures
            final(self)@ == turn_shown(old(self)@, res_view(result)),
    {
        self.running = false;
        self.cancellable = false;
        match result {
            Ok(content) => {
                self.push_log("turn complete: ".to_owned().concat(content.as_str()));
            },
            Err(error) => {
                self.push_log("turn failed: ".to_owned().concat(error.as_str()));
            },
        }
    }

    /// Nobody will tell how the running turn ends. The answer is whether that changes the
    /// screen.
    pub fn lose_turn(&mut self) -> (changed: bool)
        ensures
            changed == old(self)@.running,
            final(self)@ == (UiView { running: false, ..old(self)@ }),
    {
        let changed = self.running;
        self.running = false;
        changed
    }

    /// Shows events. The answer is whether any of them is shown.
    pub fn take_events(&mut self, events: &Vec<RuntimeEvent>, maximum_logs: usize) -> (changed: bool)
        ensures
            final(self)@ == trimmed_logs(
                (UiView {
                    logs: old(self)@.logs + event_lines(views(events@)),
                    ..old(self)@
                }),
                maximum_logs as nat,
            ),
            changed == (event_lines(views(events@)).len() > 0),
    {
        let ghost all = views(events@);
        let ghost start = self@;
        let mut changed = false;
        let mut at: usize = 0;
        assert(all.take(0) =~= Seq::empty());
        assert(start.logs + event_lines(all.take(0)) =~= start.logs);
        while at < events.len()
            invariant
                at <= events@.len(),
                all == views(events@),
                start == old(self)@,
                self@ == (UiView {
                    logs: start.logs + event_lines(all.take(at as int)),
                    ..start
                }),
                changed == (event_lines(all.take(at as int)).len() > 0),
            decreases events@.len() - at,
        {
            proof {
                let grown = all.take(at as int + 1);
                assert(grown.drop_last() =~= all.take(at as int));
                assert(grown.last() == events@[at as int]@);
            }
            match format_event(&events[at]) {
                Some(line) => {
                    assert(start.logs + event_lines(all.take(at as int)).push(line@) =~= (start.logs
                        + event_lines(all.take(at as int))).push(line@));
                    self.push_log(line);
                    changed = true;
                },
                None => {},
            }
            at = at + 1;
        }
        assert(all.take(at as int) =~= all);
        self.trim_logs(maximum_logs);
        changed
    }

    /// Shows an approval that was asked for, or lets it wait.
    pub fn take_approval(&mut self, request: ApprovalRequest)
        ensures
            final(self)@ == asked(old(self)@, request@),
    {
        if self.current_approval.is_none() {
            self.current_approval = Some(request);
        } else {
            proof {
                lemma_views_push(self.queued_approvals@, request);
            }
            self.queued_approvals.push(request);
        }
    }
}

// ---------------------------------------------------------------------------
// Rendering
// ---------------------------------------------------------------------------

/// What is printed where.
#[derive(Debug, PartialEq, Eq)]
pub struct Screen {
    pub header: String,
    pub lines: Vec<String>,
    /// The tool and the action of the approval that is shown.
    pub approval: Option<(String, String)>,
    pub status: String,
    pub status_row: u16,
    pub prompt: String,
    pub prompt_row: u16,
}

/// The log in lines of a width.
pub open spec fn wrapped_logs(logs: Seq<Seq<char>>, width: nat) -> Seq<Seq<char>>
    decreases logs.len(),
{
    if logs.len() == 0 {
        Seq::empty()
    } else {
        wrapped_logs(logs.drop_last(), width) + wrapped(logs.last(), width)
    }
}

/// The width that lines are wrapped to.
pub open spec fn text_width(width: u16) -> nat {
    if width < 20 {
        18
    } else {
        (width - 2) as nat
    }
}

/// The number of lines of the log that there is room for.
pub open spec fn log_height(height: u16, approval: bool) -> nat {
    let taken = if approval {
        8int
    } else {
        4int
    };
    if height >= taken {
        (height - taken) as nat
    } else {
        0
    }
}

/// The last lines that there is room for.
pub open spec fn visible_lines(lines: Seq<Seq<char>>, room: nat) -> Seq<Seq<char>> {
    if lines.len() > room {
        lines.skip(lines.len() - room)
    } else {
        lines
    }
}

/// A row from the bottom of the screen.
pub open spec fn row_from_bottom(height: u16, distance: int) -> u16 {
    if height >= distance {
        (height - distance) as u16
    } else {
        0
    }
}

fn wrap_logs(logs: &Vec<String>, width: usize) -> (lines: Vec<String>)
    ensures
        views(lines@) == wrapped_logs(views(logs@), width as nat),
{
    let ghost all = views(logs@);
    let mut lines: Vec<String> = Vec::new();
    let mut at: usize = 0;
    assert(all.take(0) =~= Seq::empty());
    assert(views(lines@) =~= wrapped_logs(all.take(0), width as nat));
    while at < logs.len()
        invariant
            at <= logs@.len(),
            all == views(logs@),
            views(lines@) == wrapped_logs(all.take(at as int), width as nat),
        decreases logs@.len() - at,
    {
        let mut more = wrap_line(logs[at].as_str(), width);
        proof {
            let grown = all.take(at as int + 1);
            assert(grown.drop_last() =~= all.take(at as int));
            assert(grown.last() == logs@[at as int]@);
            lemma_views_concat(lines@, more@);
        }
        lines.append(&mut more);
        at = at + 1;
    }
    assert(all.take(at as int) =~= all);
    lines
}

/// What is printed where, on a terminal of this size.
pub fn layout(state: &UiState, config: &TuiConfig, width: u16, height: u16) -> (screen: Screen)
    ensures
        screen.header@ == config@.title + "  ["@ + state@.thread_id + "]"@,
        views(screen.lines@) == visible_lines(
            wrapped_logs(state@.logs, text_width(width)),
            log_height(height, state@.current_approval is Some),
        ),
        match state@.current_approval {
            Some(request) => screen.approval matches Some((tool, action)) && tool@
                == request.action.tool_name && action@ == json_text(request.action.arguments),
            None => screen.approval is None,
        },
        screen.status@ == "status: "@ + (if state@.running {
            "running"@
        } else {
            "ready"@
        }),
        screen.status_row == row_from_bottom(height, 2),
        screen.prompt@ == "> "@ + state@.input,
        screen.prompt_row == row_from_bottom(height, 1),
{
    let columns: usize = if width < 20 {
        18
    } else {
        width as usize - 2
    };
    let mut taken: u16 = 4;
    if state.current_approval.is_some() {
        taken = 8;
    }
    let room: usize = if height >= taken {
        (height - taken) as usize
    } else {
        0
    };
    let mut lines = wrap_logs(&state.logs, columns);
    let count: usize = lines.len();
    if count > room {
        let ghost before = lines@;
        let kept = lines.split_off(count - room);
        proof {
            assert(views(kept@) =~= views(before).skip(count - room));
        }
        lines = kept;
    }
    let approval = match &state.current_approval {
        Some(request) => Some(
            (request.action.tool_name.clone(), request.action.arguments.to_text()),
        ),
        None => None,
    };
    let status = if state.running {
        "running"
    } else {
        "ready"
    };
    Screen {
        header: config.title.clone().concat("  [").concat(state.thread_id.as_str()).concat("]"),
        lines,
        approval,
        status: "status: ".to_owned().concat(status),
        status_row: if height >= 2 {
            height - 2
        } else {
            0
        },
        prompt: "> ".to_owned().concat(state.input.as_str()),
        prompt_row: if height >= 1 {
            height - 1
        } else {
            0
        },
    }
}

// ---------------------------------------------------------------------------
// Laws
// ---------------------------------------------------------------------------

/// An approval is for the exact action that was shown, and nothing but an explicit yes
/// approves it.
pub proof fn law_approval_is_for_the_shown_action(
    state: UiView,
    key: Key,
    control: bool,
    maximum: nat,
    action: CanonicalActionView,
)
    requires
        pressed(state, key, control, maximum).1 == UiActionView::Decide(
            ApprovalDecisionView::Approved { action },
        ),
    ensures
        state.current_approval matches Some(request) && request.action == action,
        key == Key::Char('y') || key == Key::Char('Y'),
{
}

/// While a turn runs, no other one is started.
pub proof fn law_one_turn_at_a_time(state: UiView, key: Key, control: bool, maximum: nat)
    requires
        state.running,
    ensures
        !(pressed(state, key, control, maximum).1 is Start),
        pressed(state, key, control, maximum).0.running,
{
}

/// Approvals are answered in the order in which they were asked for, and none is lost: what
/// is answered next is what was asked for first.
pub proof fn law_approvals_keep_their_order(
    state: UiView,
    request: ApprovalRequestView,
    approve: bool,
)
    requires
        state.current_approval is Some,
    ensures
        ({
            let later = asked(state, request);
            let (after, _) = answered(later, approve);
            &&& later.current_approval == state.current_approval
            &&& later.queued_approvals == state.queued_approvals.push(request)
            &&& after.current_approval == Some(later.queued_approvals[0])
            &&& after.queued_approvals == later.queued_approvals.skip(1)
        }),
{
}

} // verus!
