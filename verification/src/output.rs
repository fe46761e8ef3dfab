//! Keeping large tool outputs outside of the context, and reading them page by page.

use vstd::prelude::*;
use vstd::string::*;

use crate::datum::{done_view, lemma_views_push, res_view, views};
use vstd::utf8::*;

use crate::context::{
    context_error_text, CompiledContext, ContextCompiler, ContextError, ContextErrorView,
    ContextInput, ContextInputView,
};
use crate::id::{CallId, ThreadId};
use crate::json::{
    bare_object, get_member, json_text, lemma_object, member, no_members, object_view, text_array,
    text_json, with_member, Json, JsonView,
};
use crate::keyed::Keyed;
use crate::protocol::{
    CanonicalAction, CanonicalActionView, EffectKind, PreparedToolCall, PreparedToolCallView,
    RetrySafety, ToolCall, ToolCallView, ToolReceipt, ToolReceiptView, TranscriptMessage,
    TranscriptMessageView,
};
use crate::text::{digit_of, lemma_first_index_is, same_text};
use crate::tool::{
    ToolDefinition, ToolDefinitionView, ToolError, ToolErrorView, ToolExecutionContext, ToolOutput,
};
use crate::utf8::{
    bytes_of, cut_short, decode, lemma_piece, longest_valid, same_bytes, sub_bytes, utf8_message,
};

verus! {

// ---------------------------------------------------------------------------
// Names of files
// ---------------------------------------------------------------------------

/// A hexadecimal digit.
pub open spec fn hex_digit_of(value: int) -> char {
    if value < 10 {
        digit_of(value as nat)
    } else if value == 10 {
        'a'
    } else if value == 11 {
        'b'
    } else if value == 12 {
        'c'
    } else if value == 13 {
        'd'
    } else if value == 14 {
        'e'
    } else {
        'f'
    }
}

/// The bytes in hexadecimal, two digits each.
pub open spec fn hex_of(bytes: Seq<u8>) -> Seq<char>
    decreases bytes.len(),
{
    if bytes.len() == 0 {
        Seq::empty()
    } else {
        hex_of(bytes.drop_last()).push(hex_digit_of(bytes.last() as int / 16)).push(
            hex_digit_of(bytes.last() as int % 16),
        )
    }
}

fn hex_digit(value: u8) -> (digit: char)
    requires
        value < 16,
    ensures
        digit == hex_digit_of(value as int),
{
    if value == 0 {
        '0'
    } else if value == 1 {
        '1'
    } else if value == 2 {
        '2'
    } else if value == 3 {
        '3'
    } else if value == 4 {
        '4'
    } else if value == 5 {
        '5'
    } else if value == 6 {
        '6'
    } else if value == 7 {
        '7'
    } else if value == 8 {
        '8'
    } else if value == 9 {
        '9'
    } else if value == 10 {
        'a'
    } else if value == 11 {
        'b'
    } else if value == 12 {
        'c'
    } else if value == 13 {
        'd'
    } else if value == 14 {
        'e'
    } else {
        'f'
    }
}

/// The component of a path that stands for an identifier.
pub open spec fn component_of(id: Seq<char>) -> Result<Seq<char>, ContextErrorView> {
    let bytes = encode_utf8(id);
    if bytes.len() == 0 || bytes.len() > 96 {
        Err(ContextErrorView::Read("archive IDs must contain 1..=96 UTF-8 bytes"@))
    } else {
        Ok(hex_of(bytes))
    }
}

/// The component of a path that stands for an identifier. Hex encoding is injective and
/// cannot introduce path separators; long identifiers are refused rather than truncated.
pub fn component(id: &str) -> (component: Result<String, ContextError>)
    ensures
        res_view(component) == component_of(id@),
{
    let bytes = bytes_of(id);
    if bytes.len() == 0 || bytes.len() > 96 {
        return Err(
            ContextError::Read("archive IDs must contain 1..=96 UTF-8 bytes".to_owned()),
        );
    }
    let mut text = String::new();
    let mut index: usize = 0;
    assert(bytes@.take(0) =~= Seq::empty());
    while index < bytes.len()
        invariant
            index <= bytes@.len(),
            text@ == hex_of(bytes@.take(index as int)),
        decreases bytes@.len() - index,
    {
        proof {
            let grown = bytes@.take(index as int + 1);
            assert(grown.drop_last() =~= bytes@.take(index as int));
            assert(grown.last() == bytes@[index as int]);
        }
        text.push(hex_digit(bytes[index] / 16));
        text.push(hex_digit(bytes[index] % 16));
        index = index + 1;
    }
    assert(bytes@.take(index as int) =~= bytes@);
    Ok(text)
}

proof fn lemma_hex(bytes: Seq<u8>)
    ensures
        hex_of(bytes).len() == 2 * bytes.len(),
        forall|i: int| 0 <= i < hex_of(bytes).len() ==> #[trigger] hex_of(bytes)[i] != '/' && hex_of(
            bytes,
        )[i] != '.',
    decreases bytes.len(),
{
    if bytes.len() > 0 {
        lemma_hex(bytes.drop_last());
        let front = hex_of(bytes.drop_last());
        let all = hex_of(bytes);
        assert forall|i: int| 0 <= i < all.len() implies #[trigger] all[i] != '/' && all[i] != '.' by {
            if i < front.len() {
                assert(all[i] == front[i]);
            }
        }
    }
}

proof fn lemma_hex_injective(left: Seq<u8>, right: Seq<u8>)
    requires
        hex_of(left) == hex_of(right),
    ensures
        left == right,
    decreases left.len(),
{
    lemma_hex(left);
    lemma_hex(right);
    if left.len() == 0 {
        assert(left =~= right);
    } else {
        let a = hex_of(left);
        let b = hex_of(right);
        let front_a = hex_of(left.drop_last());
        let front_b = hex_of(right.drop_last());
        lemma_hex(left.drop_last());
        lemma_hex(right.drop_last());
        assert(front_a =~= a.take(a.len() - 2));
        assert(front_b =~= b.take(b.len() - 2));
        lemma_hex_injective(left.drop_last(), right.drop_last());
        let x = left.last() as int;
        let y = right.last() as int;
        assert(a[a.len() - 2] == hex_digit_of(x / 16) && b[b.len() - 2] == hex_digit_of(y / 16));
        assert(a[a.len() - 1] == hex_digit_of(x % 16) && b[b.len() - 1] == hex_digit_of(y % 16));
        assert(x / 16 == y / 16);
        assert(x % 16 == y % 16);
        assert(left =~= left.drop_last().push(left.last()));
        assert(right =~= right.drop_last().push(right.last()));
    }
}

/// Different identifiers have different components, and no component holds a path
/// separator or a dot, so that no identifier can name a file of another one or leave the
/// archive.
pub proof fn law_components_are_injective(left: Seq<char>, right: Seq<char>)
    requires
        component_of(left) is Ok,
        component_of(right) is Ok,
    ensures
        component_of(left) == component_of(right) ==> left == right,
        forall|i: int|
            0 <= i < component_of(left)->Ok_0.len() ==> #[trigger] component_of(left)->Ok_0[i] != '/'
                && component_of(left)->Ok_0[i] != '.',
{
    lemma_hex(encode_utf8(left));
    if component_of(left) == component_of(right) {
        lemma_hex_injective(encode_utf8(left), encode_utf8(right));
        encode_utf8_decode_utf8(left);
        encode_utf8_decode_utf8(right);
    }
}

// ---------------------------------------------------------------------------
// The archive
// ---------------------------------------------------------------------------

/// What to do with an output that is to be retained.
#[derive(Clone, Copy, Debug, PartialEq, Eq, Structural)]
pub enum Retention {
    /// Publish a new snapshot.
    Publish,
    /// Keep the snapshot that is there: it holds the same bytes.
    Keep,
}

/// Immutable per-thread/call JSON output snapshots in a trusted host directory.
/// Keep this directory outside tool-writable workspaces. Exclusive ownership is
/// required across instances/processes; path checks are not an OS sandbox.
#[derive(Debug)]
pub struct OutputArchive {
    root: String,
    max_output_bytes: usize,
}

/// The paths of a snapshot: its directory and its file.
pub open spec fn paths_of(root: Seq<char>, thread: Seq<char>, call: Seq<char>) -> Result<
    (Seq<char>, Seq<char>),
    ContextErrorView,
> {
    match component_of(thread) {
        Err(error) => Err(error),
        Ok(outer) => match component_of(call) {
            Err(error) => Err(error),
            Ok(inner) => Ok(
                (root + "/"@ + outer, root + "/"@ + outer + "/"@ + inner + ".json"@),
            ),
        },
    }
}

/// Two snapshots have one file only if they are of one thread and one call.
pub proof fn law_snapshots_have_files_of_their_own(
    root: Seq<char>,
    thread: Seq<char>,
    call: Seq<char>,
    other_thread: Seq<char>,
    other_call: Seq<char>,
)
    requires
        paths_of(root, thread, call) is Ok,
        paths_of(root, other_thread, other_call) is Ok,
        paths_of(root, thread, call)->Ok_0.1 == paths_of(root, other_thread, other_call)->Ok_0.1,
    ensures
        thread == other_thread,
        call == other_call,
{
    reveal_strlit("/");
    reveal_strlit(".json");
    let outer = component_of(thread)->Ok_0;
    let inner = component_of(call)->Ok_0;
    let other_outer = component_of(other_thread)->Ok_0;
    let other_inner = component_of(other_call)->Ok_0;
    law_components_are_injective(thread, other_thread);
    law_components_are_injective(other_thread, thread);
    law_components_are_injective(call, other_call);
    let path = paths_of(root, thread, call)->Ok_0.1;
    let other = paths_of(root, other_thread, other_call)->Ok_0.1;
    let start = root.len() as int + 1;
    let below = path.skip(start);
    let other_below = other.skip(start);
    assert(below =~= outer + "/"@ + inner + ".json"@);
    assert(other_below =~= other_outer + "/"@ + other_inner + ".json"@);
    assert forall|i: int| 0 <= i < outer.len() implies below[i] != '/' by {
        assert(below[i] == outer[i]);
    }
    assert forall|i: int| 0 <= i < other_outer.len() implies other_below[i] != '/' by {
        assert(other_below[i] == other_outer[i]);
    }
    assert(below[outer.len() as int] == '/');
    assert(other_below[other_outer.len() as int] == '/');
    lemma_first_index_is(below, '/', outer.len() as int);
    lemma_first_index_is(other_below, '/', other_outer.len() as int);
    assert(outer.len() == other_outer.len());
    assert(outer =~= below.take(outer.len() as int));
    assert(other_outer =~= other_below.take(outer.len() as int));
    let tail = below.skip(outer.len() as int + 1);
    let other_tail = other_below.skip(outer.len() as int + 1);
    assert(tail =~= inner + ".json"@);
    assert(other_tail =~= other_inner + ".json"@);
    assert(inner.len() == other_inner.len());
    assert(inner =~= tail.take(inner.len() as int));
    assert(other_inner =~= other_tail.take(inner.len() as int));
}

/// Whether a snapshot file can be read: it is a regular file within the limit.
pub open spec fn snapshot_check(regular: bool, length: nat, limit: nat) -> Result<
    (),
    ContextErrorView,
> {
    if !regular || length > limit {
        Err(ContextErrorView::Read("archive snapshot is not a bounded regular file"@))
    } else {
        Ok(())
    }
}

/// What is to be done with an output, given the snapshot that is there, if any. A snapshot
/// is never overwritten.
pub open spec fn retention_of(
    limit: nat,
    thread: Seq<char>,
    call: Seq<char>,
    bytes: Seq<u8>,
    existing: Option<Seq<u8>>,
) -> Result<Retention, ContextErrorView> {
    if bytes.len() > limit {
        Err(ContextErrorView::Read("tool output exceeds archive limit"@))
    } else if component_of(thread) is Err {
        Err(component_of(thread)->Err_0)
    } else if component_of(call) is Err {
        Err(component_of(call)->Err_0)
    } else {
        match existing {
            None => Ok(Retention::Publish),
            Some(retained) => match snapshot_check(true, retained.len(), limit) {
                Err(error) => Err(error),
                Ok(()) => if retained == bytes {
                    Ok(Retention::Keep)
                } else {
                    Err(ContextErrorView::Read("archive snapshot conflict; refusing overwrite"@))
                },
            },
        }
    }
}

/// One page of a snapshot.
#[verifier::ext_equal]
pub ghost struct PageView {
    pub text: Seq<char>,
    pub next_offset: nat,
    pub total_bytes: nat,
}

/// The bytes of a page: at most `limit`, from `offset` on.
pub open spec fn page_bytes(snapshot: Seq<u8>, offset: int, limit: nat) -> Seq<u8> {
    if offset + limit <= snapshot.len() {
        snapshot.subrange(offset, offset + limit)
    } else {
        snapshot.subrange(offset, snapshot.len() as int)
    }
}

/// The length of the longest valid prefix.
pub open spec fn valid_length(bytes: Seq<u8>) -> int {
    choose|count: int| longest_valid(bytes, count)
}

proof fn lemma_valid_length(bytes: Seq<u8>, count: int)
    requires
        longest_valid(bytes, count),
    ensures
        valid_length(bytes) == count,
{
    let found = valid_length(bytes);
    assert(longest_valid(bytes, found));
    if found < count {
        assert(!valid_utf8(bytes.take(count)));
    } else if count < found {
        assert(!valid_utf8(bytes.take(found)));
    }
}

/// The page of a snapshot. Its text ends with a whole character; only a character that
/// the limit cuts short is left to the next page.
pub open spec fn page_of(snapshot: Seq<u8>, offset: nat, limit: nat) -> Result<
    PageView,
    ContextErrorView,
> {
    if limit < 4 || limit > 4096 {
        Err(ContextErrorView::Read("page limit must be 4..=4096 bytes"@))
    } else if offset > snapshot.len() {
        Err(ContextErrorView::Read("page offset exceeds snapshot length"@))
    } else {
        let piece = page_bytes(snapshot, offset as int, limit);
        if valid_utf8(piece) {
            Ok(
                PageView {
                    text: decode_utf8(piece),
                    next_offset: offset + piece.len(),
                    total_bytes: snapshot.len(),
                },
            )
        } else if cut_short(piece.skip(valid_length(piece))) && offset + piece.len()
            < snapshot.len() {
            Ok(
                PageView {
                    text: decode_utf8(piece.take(valid_length(piece))),
                    next_offset: (offset + valid_length(piece)) as nat,
                    total_bytes: snapshot.len(),
                },
            )
        } else {
            Err(ContextErrorView::Read(utf8_message(piece)))
        }
    }
}

/// A page as the model gets it.
pub open spec fn page_json(call: Seq<char>, page: PageView) -> JsonView {
    JsonView::Object(
        bare_object().insert("call_id"@, JsonView::Text(call)).insert(
            "text"@,
            JsonView::Text(page.text),
        ).insert("next_offset"@, JsonView::Integer(page.next_offset as int)).insert(
            "total_bytes"@,
            JsonView::Integer(page.total_bytes as int),
        ).insert("eof"@, JsonView::Bool(page.next_offset == page.total_bytes)),
    )
}

impl OutputArchive {
    /// The directory of the archive.
    pub closed spec fn directory(&self) -> Seq<char> {
        self.root@
    }

    /// The greatest output that is retained.
    pub closed spec fn limit(&self) -> usize {
        self.max_output_bytes
    }

    pub fn new(root: String, max_output_bytes: usize) -> (archive: Result<Self, ContextError>)
        ensures
            match archive {
                Ok(found) => max_output_bytes > 0 && found.directory() == root@ && found.limit()
                    == max_output_bytes,
                Err(error) => max_output_bytes == 0 && error@ == ContextErrorView::Read(
                    "archive output limit must be positive"@,
                ),
            },
    {
        if max_output_bytes == 0 {
            return Err(ContextError::Read("archive output limit must be positive".to_owned()));
        }
        Ok(OutputArchive { root, max_output_bytes })
    }

    /// The directory and the file of a snapshot.
    pub fn paths(&self, thread: &ThreadId, call: &str) -> (paths: Result<
        (String, String),
        ContextError,
    >)
        ensures
            match paths {
                Ok(found) => paths_of(self.directory(), thread@, call@) == Ok::<
                    (Seq<char>, Seq<char>),
                    ContextErrorView,
                >((found.0@, found.1@)),
                Err(error) => paths_of(self.directory(), thread@, call@) == Err::<
                    (Seq<char>, Seq<char>),
                    ContextErrorView,
                >(error@),
            },
    {
        let outer = match component(thread.as_str()) {
            Ok(outer) => outer,
            Err(error) => {
                return Err(error);
            },
        };
        let inner = match component(call) {
            Ok(inner) => inner,
            Err(error) => {
                return Err(error);
            },
        };
        let directory = self.root.clone().concat("/").concat(outer.as_str());
        let path = directory.clone().concat("/").concat(inner.as_str()).concat(".json");
        Ok((directory, path))
    }

    /// Whether a snapshot file can be read, given what the host sees of it.
    pub fn check_snapshot(&self, regular: bool, length: u64) -> (verdict: Result<(), ContextError>)
        ensures
            done_view(verdict) == snapshot_check(regular, length as nat, self.limit() as nat),
    {
        if !regular || length > self.max_output_bytes as u64 {
            return Err(
                ContextError::Read("archive snapshot is not a bounded regular file".to_owned()),
            );
        }
        Ok(())
    }

    /// What is to be done with an output, given the snapshot that is there, if any.
    pub fn retain(
        &self,
        thread: &ThreadId,
        call: &str,
        bytes: &Vec<u8>,
        existing: Option<&Vec<u8>>,
    ) -> (retention: Result<Retention, ContextError>)
        ensures
            (match retention {
                Ok(found) => Ok::<Retention, ContextErrorView>(found),
                Err(error) => Err(error@),
            }) == retention_of(
                self.limit() as nat,
                thread@,
                call@,
                bytes@,
                (match existing {
                    Some(found) => Some(found@),
                    None => None,
                }),
            ),
    {
        if bytes.len() > self.max_output_bytes {
            return Err(ContextError::Read("tool output exceeds archive limit".to_owned()));
        }
        match component(thread.as_str()) {
            Ok(_) => {},
            Err(error) => {
                return Err(error);
            },
        }
        match component(call) {
            Ok(_) => {},
            Err(error) => {
                return Err(error);
            },
        }
        match existing {
            None => Ok(Retention::Publish),
            Some(retained) => {
                match self.check_snapshot(true, retained.len() as u64) {
                    Ok(()) => {},
                    Err(error) => {
                        return Err(error);
                    },
                }
                if same_bytes(retained, bytes) {
                    Ok(Retention::Keep)
                } else {
                    Err(
                        ContextError::Read(
                            "archive snapshot conflict; refusing overwrite".to_owned(),
                        ),
                    )
                }
            },
        }
    }

    /// Read a page of the serialized JSON value. Offsets and limits are bytes;
    /// offsets must be UTF-8 boundaries. The next offset never splits a character.
    pub fn read_page(&self, call: &str, snapshot: &Vec<u8>, offset: u64, limit: usize) -> (page: Result<
        Json,
        ContextError,
    >)
        ensures
            match page_of(snapshot@, offset as nat, limit as nat) {
                Ok(found) => page matches Ok(json) && json@ == page_json(call@, found),
                Err(fault) => page matches Err(error) && error@ == fault,
            },
    {
        if limit < 4 || limit > 4096 {
            return Err(ContextError::Read("page limit must be 4..=4096 bytes".to_owned()));
        }
        if offset > snapshot.len() as u64 {
            return Err(ContextError::Read("page offset exceeds snapshot length".to_owned()));
        }
        let from: usize = offset as usize;
        let to: usize = if snapshot.len() - from >= limit {
            from + limit
        } else {
            snapshot.len()
        };
        let piece = sub_bytes(snapshot, from, to);
        assert(piece@ == page_bytes(snapshot@, offset as int, limit as nat));
        let (text, next): (String, usize) = match decode(&piece) {
            Ok(text) => (text, to),
            Err(fault) => {
                proof {
                    lemma_valid_length(piece@, fault.valid_up_to as int);
                }
                if fault.incomplete && to < snapshot.len() {
                    let head = sub_bytes(&piece, 0, fault.valid_up_to);
                    assert(head@ =~= piece@.take(fault.valid_up_to as int));
                    match decode(&head) {
                        Ok(text) => (text, from + fault.valid_up_to),
                        Err(_) => (String::new(), from),
                    }
                } else {
                    return Err(ContextError::Read(fault.message));
                }
            },
        };
        let total: usize = snapshot.len();
        Ok(
            Json::Object(
                with_member(
                    with_member(
                        with_member(
                            with_member(
                                with_member(no_members(), "call_id", text_json(call)),
                                "text",
                                Json::Text(text),
                            ),
                            "next_offset",
                            Json::Unsigned(next as u64),
                        ),
                        "total_bytes",
                        Json::Unsigned(total as u64),
                    ),
                    "eof",
                    Json::Bool(next == total),
                ),
            ),
        )
    }
}

/// A page that begins where a character begins succeeds, advances, ends where a character
/// ends, and holds exactly the text in between.
pub proof fn law_page_is_exact(snapshot: Seq<u8>, offset: nat, limit: nat)
    requires
        offset <= snapshot.len(),
        valid_utf8(snapshot.skip(offset as int)),
        4 <= limit <= 4096,
    ensures
        page_of(snapshot, offset, limit) matches Ok(page) && {
            &&& offset <= page.next_offset <= snapshot.len()
            &&& page.next_offset <= offset + limit
            &&& offset < snapshot.len() ==> offset < page.next_offset
            &&& valid_utf8(snapshot.skip(page.next_offset as int))
            &&& decode_utf8(snapshot.skip(offset as int)) == page.text + decode_utf8(
                snapshot.skip(page.next_offset as int),
            )
        },
{
    let rest = snapshot.skip(offset as int);
    let piece = page_bytes(snapshot, offset as int, limit);
    let size = piece.len() as int;
    assert(piece =~= rest.take(size));
    if valid_utf8(piece) {
        assert(piece.take(size) =~= piece);
        assert(longest_valid(piece, size));
        lemma_piece(rest, size, size);
        assert(rest.take(size) =~= piece);
        assert(rest.skip(size) =~= snapshot.skip(offset + size));
    } else {
        lemma_has_longest(piece, size);
        let count = valid_length(piece);
        lemma_piece(rest, size, count);
        assert(rest.take(count) =~= piece.take(count));
        assert(rest.skip(count) =~= snapshot.skip(offset + count));
        assert(size < rest.len()) by {
            if size == rest.len() {
                assert(piece =~= rest);
            }
        }
    }
}

proof fn lemma_has_longest(bytes: Seq<u8>, at_most: int)
    requires
        0 <= at_most <= bytes.len(),
        forall|n: int| at_most < n <= bytes.len() ==> !valid_utf8(#[trigger] bytes.take(n)),
    ensures
        longest_valid(bytes, valid_length(bytes)),
    decreases at_most,
{
    if valid_utf8(bytes.take(at_most)) {
        assert(longest_valid(bytes, at_most));
    } else if at_most > 0 {
        assert forall|n: int| at_most - 1 < n <= bytes.len() implies !valid_utf8(
            #[trigger] bytes.take(n),
        ) by {}
        lemma_has_longest(bytes, at_most - 1);
    } else {
        assert(bytes.take(0) =~= Seq::<u8>::empty());
        assert(valid_utf8(Seq::<u8>::empty()));
    }
}

/// The text of pages of these sizes, each read where the last one ended, and where the last
/// of them ended.
pub open spec fn read_in_pages(snapshot: Seq<u8>, offset: nat, limits: Seq<nat>) -> (Seq<char>, nat)
    decreases limits.len(),
{
    if limits.len() == 0 {
        (Seq::empty(), offset)
    } else {
        match page_of(snapshot, offset, limits[0]) {
            Ok(page) => {
                let (rest, end) = read_in_pages(snapshot, page.next_offset, limits.skip(1));
                (page.text + rest, end)
            },
            Err(_) => (Seq::empty(), offset),
        }
    }
}

proof fn lemma_pages_from(snapshot: Seq<u8>, offset: nat, limits: Seq<nat>)
    requires
        offset <= snapshot.len(),
        valid_utf8(snapshot.skip(offset as int)),
        forall|i: int| 0 <= i < limits.len() ==> 4 <= #[trigger] limits[i] <= 4096,
    ensures
        ({
            let (text, end) = read_in_pages(snapshot, offset, limits);
            &&& offset <= end <= snapshot.len()
            &&& offset + limits.len() <= end || end == snapshot.len()
            &&& valid_utf8(snapshot.skip(end as int))
            &&& decode_utf8(snapshot.skip(offset as int)) == text + decode_utf8(
                snapshot.skip(end as int),
            )
        }),
    decreases limits.len(),
{
    let all = decode_utf8(snapshot.skip(offset as int));
    if limits.len() == 0 {
        assert(Seq::<char>::empty() + all =~= all);
    } else {
        law_page_is_exact(snapshot, offset, limits[0]);
        let page = page_of(snapshot, offset, limits[0])->Ok_0;
        let later = limits.skip(1);
        assert forall|i: int| 0 <= i < later.len() implies 4 <= #[trigger] later[i] <= 4096 by {
            assert(later[i] == limits[i + 1]);
        }
        lemma_pages_from(snapshot, page.next_offset, later);
        let (rest, end) = read_in_pages(snapshot, page.next_offset, later);
        let left = decode_utf8(snapshot.skip(end as int));
        assert(page.text + (rest + left) =~= (page.text + rest) + left);
    }
}

/// Pages reconstruct the retained text exactly, whatever their sizes: pages that are each
/// read where the last one ended hold the start of the text without a gap, together with
/// what is left they are the text, and once they reach the end they are all of it. With
/// enough pages they do.
pub proof fn law_pages_reconstruct_the_text(text: Seq<char>, limits: Seq<nat>)
    requires
        forall|i: int| 0 <= i < limits.len() ==> 4 <= #[trigger] limits[i] <= 4096,
    ensures
        ({
            let snapshot = encode_utf8(text);
            let (shown, end) = read_in_pages(snapshot, 0, limits);
            &&& end <= snapshot.len()
            &&& shown + decode_utf8(snapshot.skip(end as int)) == text
            &&& end == snapshot.len() ==> shown == text
            &&& limits.len() >= snapshot.len() ==> end == snapshot.len()
        }),
{
    let snapshot = encode_utf8(text);
    encode_utf8_valid_utf8(text);
    encode_utf8_decode_utf8(text);
    assert(snapshot.skip(0) =~= snapshot);
    lemma_pages_from(snapshot, 0, limits);
    let (shown, end) = read_in_pages(snapshot, 0, limits);
    if end == snapshot.len() {
        assert(snapshot.skip(end as int) =~= Seq::<u8>::empty());
        assert(decode_utf8(Seq::<u8>::empty()) =~= Seq::<char>::empty());
        assert(shown + Seq::<char>::empty() =~= shown);
    }
}

/// A snapshot is written once: what was retained is kept or refused, never replaced, and
/// retaining the same bytes again succeeds.
pub proof fn law_snapshots_are_immutable(
    limit: nat,
    thread: Seq<char>,
    call: Seq<char>,
    first: Seq<u8>,
    second: Seq<u8>,
)
    requires
        retention_of(limit, thread, call, first, None) == Ok::<Retention, ContextErrorView>(
            Retention::Publish,
        ),
    ensures
        retention_of(limit, thread, call, first, Some(first)) == Ok::<Retention, ContextErrorView>(
            Retention::Keep,
        ),
        second != first ==> retention_of(limit, thread, call, second, Some(first)) is Err,
{
}

// ---------------------------------------------------------------------------
// Externalizing outputs
// ---------------------------------------------------------------------------

/// What stands in place of an output that was externalized.
pub open spec fn reference_of(call: Seq<char>, bytes: nat) -> JsonView {
    JsonView::Object(
        bare_object().insert(
            "externalized_output"@,
            JsonView::Object(
                bare_object().insert("version"@, JsonView::Integer(1)).insert(
                    "call_id"@,
                    JsonView::Text(call),
                ).insert("total_bytes"@, JsonView::Integer(bytes as int)).insert(
                    "format"@,
                    JsonView::Text("json"@),
                ).insert("read_tool"@, JsonView::Text("read_output"@)).insert(
                    "note"@,
                    JsonView::Text(
                        "Reading requires host registration and policy authorization"@,
                    ),
                ),
            ),
        ),
    )
}

/// The bytes of a receipt's output, if they are too many to stay inline. The pages that a
/// reader asked for always stay.
pub open spec fn oversized(receipt: ToolReceiptView, inline_bytes: nat) -> Option<Seq<u8>> {
    if receipt.tool_name == "read_output"@ {
        None
    } else {
        match receipt.output {
            None => None,
            Some(output) => {
                let bytes = encode_utf8(json_text(output));
                if bytes.len() > inline_bytes {
                    Some(bytes)
                } else {
                    None
                }
            },
        }
    }
}

/// A message with an oversized output replaced by a reference.
pub open spec fn slimmed(message: TranscriptMessageView, inline_bytes: nat) -> TranscriptMessageView {
    match message {
        TranscriptMessageView::Tool { receipt } => match oversized(receipt, inline_bytes) {
            Some(bytes) => TranscriptMessageView::Tool {
                receipt: ToolReceiptView {
                    output: Some(reference_of(receipt.call_id, bytes.len())),
                    ..receipt
                },
            },
            None => message,
        },
        _ => message,
    }
}

/// The outputs to be retained, each with its call, in the order of the messages.
pub open spec fn retained_of(messages: Seq<TranscriptMessageView>, inline_bytes: nat) -> Seq<
    (Seq<char>, Seq<u8>),
>
    decreases messages.len(),
{
    if messages.len() == 0 {
        Seq::empty()
    } else {
        let rest = retained_of(messages.drop_last(), inline_bytes);
        match messages.last() {
            TranscriptMessageView::Tool { receipt } => match oversized(receipt, inline_bytes) {
                Some(bytes) => rest.push((receipt.call_id, bytes)),
                None => rest,
            },
            _ => rest,
        }
    }
}

/// An output to be retained.
#[derive(Debug)]
pub struct RetainedOutput {
    pub call_id: CallId,
    pub bytes: Vec<u8>,
}

impl View for RetainedOutput {
    type V = (Seq<char>, Seq<u8>);

    open spec fn view(&self) -> (Seq<char>, Seq<u8>) {
        (self.call_id@, self.bytes@)
    }
}

fn write_reference(call: &CallId, bytes: usize) -> (json: Json)
    ensures
        json@ == reference_of(call@, bytes as nat),
{
    let details = with_member(
        with_member(
            with_member(
                with_member(
                    with_member(
                        with_member(no_members(), "version", Json::Unsigned(1)),
                        "call_id",
                        text_json(call.as_str()),
                    ),
                    "total_bytes",
                    Json::Unsigned(bytes as u64),
                ),
                "format",
                text_json("json"),
            ),
            "read_tool",
            text_json("read_output"),
        ),
        "note",
        text_json("Reading requires host registration and policy authorization"),
    );
    Json::Object(with_member(no_members(), "externalized_output", Json::Object(details)))
}

/// Externalize large receipt outputs before inner compilation/compaction. Only
/// cloned model context is changed; durable receipts and acceptance evidence stay
/// intact. Storage errors fail compilation rather than discarding evidence.
#[derive(Clone, Copy, Debug, PartialEq, Eq, Structural)]
pub struct ExternalOutputCompiler {
    pub inline_bytes: usize,
}

impl ExternalOutputCompiler {
    pub fn new(inline_bytes: usize) -> (compiler: Self)
        ensures
            compiler.inline_bytes == inline_bytes,
    {
        ExternalOutputCompiler { inline_bytes }
    }

    /// The transcript with references in place of oversized outputs, and the outputs
    /// that the host has to retain before the transcript may be used.
    pub fn externalize(&self, transcript: Vec<TranscriptMessage>) -> (split: (
        Vec<TranscriptMessage>,
        Vec<RetainedOutput>,
    ))
        ensures
            views(split.0@) == views(transcript@).map_values(
                |message: TranscriptMessageView| slimmed(message, self.inline_bytes as nat),
            ),
            views(split.1@) == retained_of(views(transcript@), self.inline_bytes as nat),
    {
        let ghost all = views(transcript@);
        let ghost limit = self.inline_bytes as nat;
        let ghost wanted = all.map_values(|message: TranscriptMessageView| slimmed(message, limit));
        let mut messages: Vec<TranscriptMessage> = Vec::new();
        let mut retained: Vec<RetainedOutput> = Vec::new();
        let mut index: usize = 0;
        assert(all.take(0) =~= Seq::empty());
        assert(views(messages@) =~= wanted.take(0));
        assert(views(retained@) =~= Seq::empty());
        while index < transcript.len()
            invariant
                index <= transcript@.len(),
                all == views(transcript@),
                limit == self.inline_bytes as nat,
                wanted == all.map_values(
                    |message: TranscriptMessageView| slimmed(message, limit),
                ),
                views(messages@) == wanted.take(index as int),
                views(retained@) == retained_of(all.take(index as int), limit),
            decreases transcript@.len() - index,
        {
            let mut message = transcript[index].clone();
            proof {
                let grown = all.take(index as int + 1);
                assert(grown.drop_last() =~= all.take(index as int));
                assert(grown.last() == message@);
                assert(all[index as int] == message@);
            }
            let ghost original = message@;
            if let TranscriptMessage::Tool { receipt } = message {
                let mut bytes: Option<Vec<u8>> = None;
                if !same_text(receipt.tool_name.as_str(), "read_output") {
                    if let Some(output) = &receipt.output {
                        let written = bytes_of(output.to_text().as_str());
                        if written.len() > self.inline_bytes {
                            bytes = Some(written);
                        }
                    }
                }
                message = match bytes {
                    Some(found) => {
                        let reference = write_reference(&receipt.call_id, found.len());
                        let entry = RetainedOutput { call_id: receipt.call_id.clone(), bytes: found };
                        proof {
                            lemma_views_push(retained@, entry);
                        }
                        retained.push(entry);
                        TranscriptMessage::Tool {
                            receipt: ToolReceipt {
                                call_id: receipt.call_id,
                                tool_name: receipt.tool_name,
                                status: receipt.status,
                                action: receipt.action,
                                output: Some(reference),
                                error: receipt.error,
                            },
                        }
                    },
                    None => TranscriptMessage::Tool { receipt },
                };
            }
            proof {
                assert(message@ == slimmed(original, limit));
                lemma_views_push(messages@, message);
                assert(wanted.take(index as int + 1) =~= wanted.take(index as int).push(message@));
            }
            messages.push(message);
            index = index + 1;
        }
        proof {
            assert(all.take(index as int) =~= all);
            assert(wanted.take(index as int) =~= wanted);
        }
        (messages, retained)
    }

    /// Compiles a context through an inner compiler, once `keep` has retained every
    /// oversized output.
    pub fn compile<C: ContextCompiler, K: Fn(RetainedOutput) -> Result<(), ContextError>>(
        &self,
        inner: &C,
        keep: &K,
        input: ContextInput,
    ) -> (compiled: Result<CompiledContext, ContextError>)
        requires
            forall|output: RetainedOutput| call_requires(*keep, (output,)),
        ensures
            compiles_slimmed(*inner, *keep, input@, self.inline_bytes as nat, compiled),
    {
        let ghost limit = self.inline_bytes as nat;
        let (messages, retained) = self.externalize(input.transcript);
        let slim = ContextInput {
            thread_id: input.thread_id,
            turn_id: input.turn_id,
            transcript: messages,
        };
        assert(slim@ == slimmed_input(input@, limit));
        let done = keep_all(keep, retained);
        assert(keeps(*keep, retained_of(input@.transcript, limit), done_view(done)));
        match done {
            Ok(()) => {},
            Err(error) => {
                return Err(error);
            },
        }
        let made = inner.compile(slim);
        assert(call_ensures(C::compile, (inner, slim), made));
        assert(compiles(*inner, slimmed_input(input@, limit), made));
        made
    }
}

/// The input of a compiler with references in place of oversized outputs.
pub open spec fn slimmed_input(input: ContextInputView, inline_bytes: nat) -> ContextInputView {
    ContextInputView {
        transcript: input.transcript.map_values(
            |message: TranscriptMessageView| slimmed(message, inline_bytes),
        ),
        ..input
    }
}

/// Whether an output may have been retained with this answer.
pub open spec fn kept<K: Fn(RetainedOutput) -> Result<(), ContextError>>(
    keep: K,
    output: (Seq<char>, Seq<u8>),
    answer: Result<(), ContextErrorView>,
) -> bool {
    exists|given: RetainedOutput, done: Result<(), ContextError>|
        given@ == output && done_view(done) == answer && #[trigger] call_ensures(
            keep,
            (given,),
            done,
        )
}

/// Whether outputs were retained this way, one after the other: all of them, or up to the
/// first that could not be.
pub open spec fn keeps<K: Fn(RetainedOutput) -> Result<(), ContextError>>(
    keep: K,
    outputs: Seq<(Seq<char>, Seq<u8>)>,
    done: Result<(), ContextErrorView>,
) -> bool {
    exists|count: int| #[trigger]
        keeps_first(keep, outputs, count) && match done {
            Ok(()) => count == outputs.len(),
            Err(_) => count < outputs.len() && kept(keep, outputs[count], done),
        }
}

/// Whether the first outputs were retained.
pub open spec fn keeps_first<K: Fn(RetainedOutput) -> Result<(), ContextError>>(
    keep: K,
    outputs: Seq<(Seq<char>, Seq<u8>)>,
    count: int,
) -> bool {
    &&& 0 <= count <= outputs.len()
    &&& forall|i: int| 0 <= i < count ==> kept(keep, #[trigger] outputs[i], Ok(()))
}

/// Whether a compiler may have made this of an input.
pub open spec fn compiles<C: ContextCompiler>(
    compiler: C,
    input: ContextInputView,
    made: Result<CompiledContext, ContextError>,
) -> bool {
    exists|given: ContextInput|
        given@ == input && #[trigger] call_ensures(C::compile, (&compiler, given), made)
}

/// Whether a context was compiled this way: the inner compiler saw references once every
/// oversized output was retained. Where one was not, nothing is compiled.
pub open spec fn compiles_slimmed<
    C: ContextCompiler,
    K: Fn(RetainedOutput) -> Result<(), ContextError>,
>(
    inner: C,
    keep: K,
    input: ContextInputView,
    inline_bytes: nat,
    compiled: Result<CompiledContext, ContextError>,
) -> bool {
    exists|done: Result<(), ContextErrorView>| #[trigger]
        keeps(keep, retained_of(input.transcript, inline_bytes), done) && match done {
            Ok(()) => compiles(inner, slimmed_input(input, inline_bytes), compiled),
            Err(error) => compiled matches Err(found) && found@ == error,
        }
}

fn keep_all<K: Fn(RetainedOutput) -> Result<(), ContextError>>(
    keep: &K,
    outputs: Vec<RetainedOutput>,
) -> (done: Result<(), ContextError>)
    requires
        forall|output: RetainedOutput| call_requires(*keep, (output,)),
    ensures
        keeps(*keep, views(outputs@), done_view(done)),
{
    let ghost all = views(outputs@);
    let mut rest = outputs;
    let ghost mut count: int = 0;
    assert(all.skip(0) =~= all);
    while rest.len() > 0
        invariant
            forall|output: RetainedOutput| call_requires(*keep, (output,)),
            all == views(outputs@),
            keeps_first(*keep, all, count),
            views(rest@) == all.skip(count),
            rest@.len() == all.len() - count,
        decreases rest@.len(),
    {
        let ghost before = rest@;
        assert(views(before)[0] == all[count]);
        let output = rest.remove(0);
        let ghost given = output;
        assert(given@ == all[count]);
        let done = keep(output);
        assert(kept(*keep, all[count], done_view(done)));
        match done {
            Ok(()) => {},
            Err(error) => {
                return Err(error);
            },
        }
        proof {
            assert(views(rest@) =~= views(before).skip(1));
            assert(all.skip(count).skip(1) =~= all.skip(count + 1));
            count = count + 1;
        }
    }
    assert(keeps_first(*keep, all, all.len() as int));
    Ok(())
}

/// Externalizing changes the outputs of tool messages only: calls, statuses, actions and
/// errors stay, and so does every other message.
pub proof fn law_externalizing_keeps_receipts(message: TranscriptMessageView, inline_bytes: nat)
    ensures
        match message {
            TranscriptMessageView::Tool { receipt } => {
                slimmed(message, inline_bytes) matches TranscriptMessageView::Tool {
                    receipt: kept,
                } && kept == (ToolReceiptView { output: kept.output, ..receipt })
            },
            _ => slimmed(message, inline_bytes) == message,
        },
{
}

// ---------------------------------------------------------------------------
// Reading archived outputs
// ---------------------------------------------------------------------------

/// Explicitly register and authorize this read-only tool to expose archived
/// evidence. Model arguments cannot select another thread or an arbitrary path.
#[derive(Clone, Copy, Debug, PartialEq, Eq, Structural)]
pub struct ReadOutputTool;

/// The page that a prepared call asks for.
#[derive(Debug, PartialEq, Eq)]
pub struct PageRequest {
    pub call_id: String,
    pub offset: u64,
    pub limit: usize,
}

/// An unsigned number among the arguments: its value, the default if it is missing, or
/// nothing if it is no such number.
pub open spec fn number_argument(
    arguments: Map<Seq<char>, JsonView>,
    key: Seq<char>,
    default: int,
) -> Option<int> {
    if !arguments.contains_key(key) {
        Some(default)
    } else {
        match arguments[key] {
            JsonView::Integer(value) => if 0 <= value <= u64::MAX {
                Some(value)
            } else {
                None
            },
            _ => None,
        }
    }
}

/// Whether there is an argument that the tool does not know.
pub open spec fn unknown_argument(arguments: Map<Seq<char>, JsonView>) -> bool {
    exists|key: Seq<char>| #[trigger]
        arguments.contains_key(key) && key != "call_id"@ && key != "offset"@ && key != "limit"@
}

/// The action that a call of the tool resolves to.
pub open spec fn page_action(
    call: ToolCallView,
    thread_id: Seq<char>,
) -> Result<PreparedToolCallView, Seq<char>> {
    match call.arguments {
        JsonView::Object(arguments) => if unknown_argument(arguments) {
            Err("unknown page argument"@)
        } else {
            match member(call.arguments, "call_id"@) {
                Some(JsonView::Text(id)) => match component_of(id) {
                    Err(error) => Err(context_error_text(error)),
                    Ok(_) => match number_argument(arguments, "offset"@, 0) {
                        None => Err("offset must be an unsigned integer"@),
                        Some(offset) => match number_argument(arguments, "limit"@, 2048) {
                            None => Err("limit must be 4..=4096"@),
                            Some(limit) => if limit < 4 || limit > 4096 {
                                Err("limit must be 4..=4096"@)
                            } else {
                                Ok(
                                    PreparedToolCallView {
                                        call_id: call.id,
                                        action: CanonicalActionView {
                                            tool_name: "read_output"@,
                                            arguments: JsonView::Object(
                                                bare_object().insert(
                                                    "call_id"@,
                                                    JsonView::Text(id),
                                                ).insert("offset"@, JsonView::Integer(offset)).insert(
                                                    "limit"@,
                                                    JsonView::Integer(limit),
                                                ),
                                            ),
                                            effect: EffectKind::ReadOnly,
                                            retry_safety: RetrySafety::Safe,
                                            scope: Some(thread_id),
                                        },
                                    },
                                )
                            },
                        },
                    },
                },
                _ => Err("call_id is required"@),
            }
        },
        _ => Err("expected object"@),
    }
}

fn read_number(arguments: &Keyed<Json>, key: &str, default: u64) -> (number: Option<u64>)
    ensures
        match number {
            Some(value) => number_argument(object_view(*arguments), key@, default as int) == Some(
                value as int,
            ),
            None => number_argument(object_view(*arguments), key@, default as int) is None,
        },
{
    match get_member(arguments, key) {
        None => Some(default),
        Some(value) => value.as_unsigned(),
    }
}

fn has_unknown(arguments: &Keyed<Json>) -> (yes: bool)
    ensures
        yes == unknown_argument(object_view(*arguments)),
{
    let ghost members = object_view(*arguments);
    let count: usize = arguments.len();
    let ghost keys = arguments.keys();
    proof {
        lemma_object(*arguments);
        assert(members.dom() =~= arguments@.dom());
    }
    let mut index: usize = 0;
    while index < count
        invariant
            index <= count,
            count == keys.len(),
            keys == arguments.keys(),
            members == object_view(*arguments),
            members.dom() == arguments@.dom(),
            forall|i: int|
                0 <= i < index ==> (#[trigger] keys[i]) == "call_id"@ || keys[i] == "offset"@
                    || keys[i] == "limit"@,
        decreases count - index,
    {
        let key = arguments.key_at(index);
        if !same_text(key.as_str(), "call_id") && !same_text(key.as_str(), "offset") && !same_text(
            key.as_str(),
            "limit",
        ) {
            assert(members.contains_key(key@));
            return true;
        }
        index = index + 1;
    }
    proof {
        assert forall|key: Seq<char>| #[trigger] members.contains_key(key) implies key == "call_id"@
            || key == "offset"@ || key == "limit"@ by {
            assert(keys.to_set().contains(key));
            let i = choose|i: int| 0 <= i < keys.len() && keys[i] == key;
            assert(keys[i] == key);
        }
    }
    false
}

/// The page request of a prepared action that runs in a thread, or why it is not run.
pub open spec fn page_request_of(action: CanonicalActionView, thread_id: Seq<char>) -> Result<
    (Seq<char>, int, int),
    Seq<char>,
> {
    if action.scope != Some(thread_id) || action.tool_name != "read_output"@ {
        Err("prepared output scope mismatch"@)
    } else {
        match member(action.arguments, "call_id"@) {
            Some(JsonView::Text(id)) => match member(action.arguments, "offset"@) {
                Some(JsonView::Integer(offset)) => if 0 <= offset <= u64::MAX {
                    match member(action.arguments, "limit"@) {
                        Some(JsonView::Integer(limit)) => if 0 <= limit <= u64::MAX && limit
                            <= usize::MAX {
                            Ok((id, offset, limit))
                        } else {
                            Err("missing prepared limit"@)
                        },
                        _ => Err("missing prepared limit"@),
                    }
                } else {
                    Err("missing prepared offset"@)
                },
                _ => Err("missing prepared offset"@),
            },
            _ => Err("missing prepared call_id"@),
        }
    }
}

/// The schema of the tool's arguments.
pub open spec fn page_schema() -> JsonView {
    JsonView::Object(
        bare_object().insert("type"@, JsonView::Text("object"@)).insert(
            "properties"@,
            JsonView::Object(
                bare_object().insert(
                    "call_id"@,
                    JsonView::Object(bare_object().insert("type"@, JsonView::Text("string"@))),
                ).insert(
                    "offset"@,
                    JsonView::Object(
                        bare_object().insert("type"@, JsonView::Text("integer"@)).insert(
                            "minimum"@,
                            JsonView::Integer(0),
                        ),
                    ),
                ).insert(
                    "limit"@,
                    JsonView::Object(
                        bare_object().insert("type"@, JsonView::Text("integer"@)).insert(
                            "minimum"@,
                            JsonView::Integer(4),
                        ).insert("maximum"@, JsonView::Integer(4096)),
                    ),
                ),
            ),
        ).insert("required"@, JsonView::Array(seq![JsonView::Text("call_id"@)])).insert(
            "additionalProperties"@,
            JsonView::Bool(false),
        ),
    )
}

impl ReadOutputTool {
    /// What the model is told of the tool.
    pub fn definition(&self) -> (definition: ToolDefinition)
        ensures
            definition@ == (ToolDefinitionView {
                name: "read_output"@,
                description: "Read a UTF-8 page of archived JSON tool output in this thread"@,
                input_schema: page_schema(),
            }),
    {
        let call_id = Json::Object(with_member(no_members(), "type", text_json("string")));
        let offset = Json::Object(
            with_member(
                with_member(no_members(), "type", text_json("integer")),
                "minimum",
                Json::Unsigned(0),
            ),
        );
        let limit = Json::Object(
            with_member(
                with_member(
                    with_member(no_members(), "type", text_json("integer")),
                    "minimum",
                    Json::Unsigned(4),
                ),
                "maximum",
                Json::Unsigned(4096),
            ),
        );
        let properties = Json::Object(
            with_member(
                with_member(with_member(no_members(), "call_id", call_id), "offset", offset),
                "limit",
                limit,
            ),
        );
        let mut required: Vec<String> = Vec::new();
        required.push("call_id".to_owned());
        let names = text_array(&required);
        proof {
            assert(names@->Array_0 =~= seq![JsonView::Text("call_id"@)]);
        }
        let schema = Json::Object(
            with_member(
                with_member(
                    with_member(
                        with_member(no_members(), "type", text_json("object")),
                        "properties",
                        properties,
                    ),
                    "required",
                    names,
                ),
                "additionalProperties",
                Json::Bool(false),
            ),
        );
        ToolDefinition::new(
            "read_output".to_owned(),
            "Read a UTF-8 page of archived JSON tool output in this thread".to_owned(),
            schema,
        )
    }

    /// Resolves a call to the page that it asks for, within the thread that it runs in.
    pub fn prepare(&self, call: &ToolCall, context: &ToolExecutionContext) -> (prepared: Result<
        PreparedToolCall,
        ToolError,
    >)
        ensures
            match page_action(call@, context@.thread_id) {
                Ok(action) => prepared matches Ok(found) && found@ == action,
                Err(message) => prepared matches Err(error) && error@
                    == ToolErrorView::InvalidArguments(message),
            },
    {
        let arguments = match call.arguments.as_object() {
            Some(arguments) => arguments,
            None => {
                return Err(ToolError::InvalidArguments("expected object".to_owned()));
            },
        };
        if has_unknown(arguments) {
            return Err(ToolError::InvalidArguments("unknown page argument".to_owned()));
        }
        let id = match get_member(arguments, "call_id") {
            Some(value) => match value.as_text() {
                Some(id) => id,
                None => {
                    return Err(ToolError::InvalidArguments("call_id is required".to_owned()));
                },
            },
            None => {
                return Err(ToolError::InvalidArguments("call_id is required".to_owned()));
            },
        };
        match component(id.as_str()) {
            Ok(_) => {},
            Err(error) => {
                return Err(ToolError::InvalidArguments(error.to_text()));
            },
        }
        let offset: u64 = match read_number(arguments, "offset", 0) {
            Some(offset) => offset,
            None => {
                return Err(
                    ToolError::InvalidArguments("offset must be an unsigned integer".to_owned()),
                );
            },
        };
        let limit: u64 = match read_number(arguments, "limit", 2048) {
            Some(limit) => limit,
            None => {
                return Err(ToolError::InvalidArguments("limit must be 4..=4096".to_owned()));
            },
        };
        if limit < 4 || limit > 4096 {
            return Err(ToolError::InvalidArguments("limit must be 4..=4096".to_owned()));
        }
        let resolved = Json::Object(
            with_member(
                with_member(
                    with_member(no_members(), "call_id", Json::Text(id.clone())),
                    "offset",
                    Json::Unsigned(offset),
                ),
                "limit",
                Json::Unsigned(limit),
            ),
        );
        Ok(
            PreparedToolCall {
                call_id: call.id.clone(),
                action: CanonicalAction::new(
                    "read_output".to_owned(),
                    resolved,
                    EffectKind::ReadOnly,
                    RetrySafety::Safe,
                ).in_scope(context.thread_id.as_str().to_owned()),
            },
        )
    }

    /// The page that a prepared action asks for. A cancelled turn reads nothing, and an
    /// action that was prepared in another thread is not run.
    pub fn request(
        &self,
        prepared: &PreparedToolCall,
        context: &ToolExecutionContext,
        cancelled: bool,
    ) -> (request: Result<PageRequest, ToolError>)
        ensures
            cancelled ==> (request matches Err(error) && error@ == ToolErrorView::Cancelled),
            !cancelled ==> match page_request_of(prepared@.action, context@.thread_id) {
                Ok((id, offset, limit)) => request matches Ok(found) && found.call_id@ == id
                    && found.offset == offset && found.limit == limit,
                Err(message) => request matches Err(error) && error@ == ToolErrorView::Execution(
                    message,
                ),
            },
    {
        if cancelled {
            return Err(ToolError::Cancelled);
        }
        let scoped: bool = match &prepared.action.scope {
            Some(scope) => same_text(scope.as_str(), context.thread_id.as_str()),
            None => false,
        };
        if !scoped || !same_text(prepared.action.tool_name.as_str(), "read_output") {
            return Err(ToolError::Execution("prepared output scope mismatch".to_owned()));
        }
        let id = match prepared.action.arguments.get("call_id") {
            Some(value) => value.as_text(),
            None => None,
        };
        let id = match id {
            Some(id) => id,
            None => {
                return Err(ToolError::Execution("missing prepared call_id".to_owned()));
            },
        };
        let offset: Option<u64> = match prepared.action.arguments.get("offset") {
            Some(value) => value.as_unsigned(),
            None => None,
        };
        let offset: u64 = match offset {
            Some(offset) => offset,
            None => {
                return Err(ToolError::Execution("missing prepared offset".to_owned()));
            },
        };
        let limit: Option<u64> = match prepared.action.arguments.get("limit") {
            Some(value) => value.as_unsigned(),
            None => None,
        };
        let limit: u64 = match limit {
            Some(limit) => limit,
            None => {
                return Err(ToolError::Execution("missing prepared limit".to_owned()));
            },
        };
        if limit > usize::MAX as u64 {
            return Err(ToolError::Execution("missing prepared limit".to_owned()));
        }
        Ok(PageRequest { call_id: id.clone(), offset, limit: limit as usize })
    }

    /// The output of a page that was read, or the failure to read it.
    pub fn output(&self, page: Result<Json, ContextError>) -> (output: Result<ToolOutput, ToolError>)
        ensures
            match page {
                Ok(json) => output matches Ok(found) && found@.value == json@,
                Err(fault) => output matches Err(error) && error@ == ToolErrorView::Execution(
                    context_error_text(fault@),
                ),
            },
    {
        match page {
            Ok(json) => Ok(ToolOutput::new(json)),
            Err(error) => Err(ToolError::Execution(error.to_text())),
        }
    }
}

/// A prepared page cannot leave its thread: it runs in the thread in which it was prepared
/// and in no other.
pub proof fn law_prepared_page_stays_in_its_thread(
    call: ToolCallView,
    thread_id: Seq<char>,
    other: Seq<char>,
)
    requires
        page_action(call, thread_id) is Ok,
    ensures
        page_request_of(page_action(call, thread_id)->Ok_0.action, other) is Ok ==> other == thread_id,
        usize::MAX >= 4096 ==> page_request_of(
            page_action(call, thread_id)->Ok_0.action,
            thread_id,
        ) is Ok,
{
    reveal_strlit("call_id");
    reveal_strlit("offset");
    reveal_strlit("limit");
    assert("call_id"@.len() != "offset"@.len() && "offset"@.len() != "limit"@.len() && "call_id"@.len()
        != "limit"@.len());
}

} // verus!
