//! Text as sequences of characters: trimming, splitting, joining, ordering and
//! decimal numbers, each stated over the characters of its arguments.

use vstd::prelude::*;
use vstd::string::*;
use vstd::utf8::*;

use crate::datum::{lemma_views_push, views};

verus! {

/// `String::push` appends one character to the text.
pub assume_specification[ String::push ](text: &mut String, c: char)
    ensures
        final(text)@ == old(text)@.push(c),
;

// ---------------------------------------------------------------------------
// Characters and whole texts
// ---------------------------------------------------------------------------

/// The characters with the Unicode property `White_Space`.
pub open spec fn whitespace(c: char) -> bool {
    let n = c as int;
    ||| 0x9 <= n <= 0xd
    ||| n == 0x20
    ||| n == 0x85
    ||| n == 0xa0
    ||| n == 0x1680
    ||| 0x2000 <= n <= 0x200a
    ||| n == 0x2028
    ||| n == 0x2029
    ||| n == 0x202f
    ||| n == 0x205f
    ||| n == 0x3000
}

/// The code point of a character.
pub fn code(c: char) -> (n: u32)
    ensures
        n == c as int,
{
    c as u32
}

pub fn is_whitespace(c: char) -> (yes: bool)
    ensures
        yes == whitespace(c),
{
    let n: u32 = c as u32;
    (0x9 <= n && n <= 0xd) || n == 0x20 || n == 0x85 || n == 0xa0 || n == 0x1680 || (0x2000 <= n
        && n <= 0x200a) || n == 0x2028 || n == 0x2029 || n == 0x202f || n == 0x205f || n == 0x3000
}

/// The characters of a text.
pub fn chars_of(text: &str) -> (chars: Vec<char>)
    ensures
        chars@ == text@,
{
    let mut chars: Vec<char> = Vec::new();
    for c in it: text.chars()
        invariant
            chars@ == it.seq().take(it.index() as int),
            it.seq() == text@,
    {
        proof {
            assert(it.seq().take(it.index() as int + 1) =~= it.seq().take(it.index() as int).push(
                c,
            ));
        }
        chars.push(c);
    }
    proof {
        assert(text@.take(text@.len() as int) =~= text@);
    }
    chars
}

/// The text made of the characters from `from` up to, not including, `to`.
pub fn slice_text(chars: &Vec<char>, from: usize, to: usize) -> (text: String)
    requires
        from <= to <= chars@.len(),
    ensures
        text@ == chars@.subrange(from as int, to as int),
{
    let mut text = String::new();
    let mut index: usize = from;
    while index < to
        invariant
            from <= index <= to <= chars@.len(),
            text@ == chars@.subrange(from as int, index as int),
        decreases to - index,
    {
        proof {
            assert(chars@.subrange(from as int, index as int + 1) =~= chars@.subrange(
                from as int,
                index as int,
            ).push(chars@[index as int]));
        }
        text.push(chars[index]);
        index = index + 1;
    }
    text
}

/// The text made of all the characters.
pub fn text_of(chars: &Vec<char>) -> (text: String)
    ensures
        text@ == chars@,
{
    let text = slice_text(chars, 0, chars.len());
    proof {
        assert(chars@.subrange(0, chars@.len() as int) =~= chars@);
    }
    text
}

pub fn same_text(left: &str, right: &str) -> (equal: bool)
    ensures
        equal == (left@ == right@),
{
    let a: String = left.to_owned();
    let b: String = right.to_owned();
    a == b
}

/// The number of bytes of the UTF-8 encoding.
pub fn byte_len(text: &str) -> (count: usize)
    ensures
        count as nat == encode_utf8(text@).len(),
{
    text.as_bytes().len()
}

// ---------------------------------------------------------------------------
// Trimming
// ---------------------------------------------------------------------------

/// The text without its leading whitespace.
pub open spec fn trim_start_of(text: Seq<char>) -> Seq<char>
    decreases text.len(),
{
    if text.len() > 0 && whitespace(text[0]) {
        trim_start_of(text.skip(1))
    } else {
        text
    }
}

/// The text without its trailing whitespace.
pub open spec fn trim_end_of(text: Seq<char>) -> Seq<char>
    decreases text.len(),
{
    if text.len() > 0 && whitespace(text.last()) {
        trim_end_of(text.drop_last())
    } else {
        text
    }
}

/// The text without leading and trailing whitespace.
pub open spec fn trim_of(text: Seq<char>) -> Seq<char> {
    trim_end_of(trim_start_of(text))
}

/// Whether the text holds nothing but whitespace.
pub open spec fn blank(text: Seq<char>) -> bool {
    forall|i: int| 0 <= i < text.len() ==> whitespace(#[trigger] text[i])
}

/// A text is blank exactly when nothing is left after trimming.
pub proof fn lemma_blank_is_trimmed_away(text: Seq<char>)
    ensures
        blank(text) == (trim_of(text).len() == 0),
    decreases text.len(),
{
    if text.len() > 0 && whitespace(text[0]) {
        lemma_blank_is_trimmed_away(text.skip(1));
        assert(blank(text) == blank(text.skip(1))) by {
            if blank(text.skip(1)) {
                assert forall|i: int| 0 <= i < text.len() implies whitespace(#[trigger] text[i]) by {
                    if i > 0 {
                        assert(text[i] == text.skip(1)[i - 1]);
                    }
                }
            }
            if blank(text) {
                assert forall|i: int| 0 <= i < text.skip(1).len() implies whitespace(
                    #[trigger] text.skip(1)[i],
                ) by {
                    assert(text.skip(1)[i] == text[i + 1]);
                }
            }
        }
    } else if text.len() > 0 {
        lemma_trim_end_keeps_first(text);
    }
}

proof fn lemma_trim_end_keeps_first(text: Seq<char>)
    requires
        text.len() > 0,
        !whitespace(text[0]),
    ensures
        trim_end_of(text).len() > 0,
    decreases text.len(),
{
    if whitespace(text.last()) {
        assert(text.drop_last()[0] == text[0]);
        lemma_trim_end_keeps_first(text.drop_last());
    }
}

/// Removes leading and trailing whitespace.
pub fn trim(text: &str) -> (trimmed: String)
    ensures
        trimmed@ == trim_of(text@),
{
    let chars = chars_of(text);
    let mut from: usize = 0;
    proof {
        assert(chars@.skip(0) =~= chars@);
    }
    while from < chars.len() && is_whitespace(chars[from])
        invariant
            from <= chars@.len(),
            trim_start_of(chars@) == trim_start_of(chars@.skip(from as int)),
        decreases chars@.len() - from,
    {
        proof {
            assert(chars@.skip(from as int)[0] == chars@[from as int]);
            assert(chars@.skip(from as int).skip(1) =~= chars@.skip(from as int + 1));
        }
        from = from + 1;
    }
    proof {
        if from < chars@.len() {
            assert(chars@.skip(from as int)[0] == chars@[from as int]);
        }
        assert(chars@.skip(from as int) =~= chars@.subrange(from as int, chars@.len() as int));
    }
    let mut to: usize = chars.len();
    while from < to && is_whitespace(chars[to - 1])
        invariant
            from <= to <= chars@.len(),
            trim_of(chars@) == trim_end_of(chars@.subrange(from as int, to as int)),
        decreases to,
    {
        proof {
            assert(chars@.subrange(from as int, to as int).last() == chars@[to - 1]);
            assert(chars@.subrange(from as int, to as int).drop_last() =~= chars@.subrange(
                from as int,
                to - 1,
            ));
        }
        to = to - 1;
    }
    proof {
        if from < to {
            assert(chars@.subrange(from as int, to as int).last() == chars@[to - 1]);
        }
    }
    slice_text(&chars, from, to)
}

/// Whether the text is empty or all whitespace.
pub fn is_blank(text: &str) -> (yes: bool)
    ensures
        yes == blank(text@),
{
    let chars = chars_of(text);
    let mut index: usize = 0;
    while index < chars.len()
        invariant
            index <= chars@.len(),
            chars@ == text@,
            forall|i: int| 0 <= i < index ==> whitespace(#[trigger] chars@[i]),
        decreases chars@.len() - index,
    {
        if !is_whitespace(chars[index]) {
            assert(!whitespace(text@[index as int]));
            return false;
        }
        index = index + 1;
    }
    true
}

// ---------------------------------------------------------------------------
// Searching
// ---------------------------------------------------------------------------

/// Whether `part` stands in `text` at position `at`.
pub open spec fn stands_at(text: Seq<char>, part: Seq<char>, at: int) -> bool {
    0 <= at && at + part.len() <= text.len() && text.subrange(at, at + part.len()) == part
}

/// Whether `part` stands somewhere in `text`.
pub open spec fn occurs(text: Seq<char>, part: Seq<char>) -> bool {
    exists|at: int| stands_at(text, part, at)
}

/// The position of the first `wanted`, or the length if there is none.
pub open spec fn first_index(text: Seq<char>, wanted: char) -> int
    decreases text.len(),
{
    if text.len() == 0 || text[0] == wanted {
        0
    } else {
        1 + first_index(text.skip(1), wanted)
    }
}

pub proof fn lemma_first_index(text: Seq<char>, wanted: char)
    ensures
        0 <= first_index(text, wanted) <= text.len(),
        first_index(text, wanted) < text.len() ==> text[first_index(text, wanted)] == wanted,
        forall|i: int| 0 <= i < first_index(text, wanted) ==> text[i] != wanted,
    decreases text.len(),
{
    if text.len() > 0 && text[0] != wanted {
        lemma_first_index(text.skip(1), wanted);
        assert forall|i: int| 0 <= i < first_index(text, wanted) implies text[i] != wanted by {
            if i > 0 {
                assert(text[i] == text.skip(1)[i - 1]);
            }
        }
    }
}

/// A position is the first one if the character stands there and not before.
pub proof fn lemma_first_index_is(text: Seq<char>, wanted: char, at: int)
    requires
        0 <= at <= text.len(),
        at < text.len() ==> text[at] == wanted,
        forall|i: int| 0 <= i < at ==> text[i] != wanted,
    ensures
        first_index(text, wanted) == at,
{
    lemma_first_index(text, wanted);
}

/// Whether `part` stands at position `at` of `chars`.
pub fn matches_at(chars: &Vec<char>, part: &Vec<char>, at: usize) -> (yes: bool)
    requires
        at <= chars@.len(),
    ensures
        yes == stands_at(chars@, part@, at as int),
{
    if part.len() > chars.len() - at {
        return false;
    }
    let mut index: usize = 0;
    while index < part.len()
        invariant
            index <= part@.len(),
            at + part.len() <= chars.len(),
            forall|i: int| 0 <= i < index ==> chars@[at + i] == part@[i],
        decreases part@.len() - index,
    {
        if chars[at + index] != part[index] {
            proof {
                assert(chars@.subrange(at as int, at + part@.len())[index as int] != part@[index as int]);
            }
            return false;
        }
        index = index + 1;
    }
    proof {
        assert(chars@.subrange(at as int, at + part@.len()) =~= part@);
    }
    true
}

pub fn contains_text(text: &str, part: &str) -> (yes: bool)
    ensures
        yes == occurs(text@, part@),
{
    let chars = chars_of(text);
    let wanted = chars_of(part);
    let mut at: usize = 0;
    while at < chars.len()
        invariant
            at <= chars@.len(),
            chars@ == text@,
            wanted@ == part@,
            forall|i: int| 0 <= i < at ==> !stands_at(text@, part@, i),
        decreases chars@.len() - at,
    {
        if matches_at(&chars, &wanted, at) {
            return true;
        }
        at = at + 1;
    }
    let last = matches_at(&chars, &wanted, at);
    proof {
        assert forall|i: int| !last implies !stands_at(text@, part@, i) by {
            if i > text@.len() {
            } else if i < at {
            }
        }
    }
    last
}

pub fn contains_char(text: &str, wanted: char) -> (yes: bool)
    ensures
        yes == text@.contains(wanted),
{
    let chars = chars_of(text);
    let mut index: usize = 0;
    while index < chars.len()
        invariant
            index <= chars@.len(),
            chars@ == text@,
            forall|i: int| 0 <= i < index ==> text@[i] != wanted,
        decreases chars@.len() - index,
    {
        if chars[index] == wanted {
            assert(text@[index as int] == wanted);
            return true;
        }
        index = index + 1;
    }
    false
}

/// Whether `text` begins with `part`.
pub open spec fn begins(text: Seq<char>, part: Seq<char>) -> bool {
    stands_at(text, part, 0)
}

pub fn starts_with(text: &str, part: &str) -> (yes: bool)
    ensures
        yes == begins(text@, part@),
{
    let chars = chars_of(text);
    let wanted = chars_of(part);
    matches_at(&chars, &wanted, 0)
}

/// What is left of `text` behind the prefix `part`, if it begins with it.
pub open spec fn without_prefix(text: Seq<char>, part: Seq<char>) -> Option<Seq<char>> {
    if begins(text, part) {
        Some(text.skip(part.len() as int))
    } else {
        None
    }
}

pub fn strip_prefix(text: &str, part: &str) -> (rest: Option<String>)
    ensures
        crate::datum::opt_view(rest) == without_prefix(text@, part@),
{
    let chars = chars_of(text);
    let wanted = chars_of(part);
    if matches_at(&chars, &wanted, 0) {
        let rest = slice_text(&chars, wanted.len(), chars.len());
        proof {
            assert(chars@.subrange(wanted@.len() as int, chars@.len() as int) =~= text@.skip(
                part@.len() as int,
            ));
        }
        Some(rest)
    } else {
        None
    }
}

// ---------------------------------------------------------------------------
// Lines and lists
// ---------------------------------------------------------------------------

/// A line without the carriage return in front of its line feed.
pub open spec fn without_return(line: Seq<char>) -> Seq<char> {
    if line.len() > 0 && line.last() == '\r' {
        line.drop_last()
    } else {
        line
    }
}

/// The lines of a text. A line ends with a line feed, which a carriage return
/// may precede; the last line may lack its ending.
pub open spec fn lines_of(text: Seq<char>) -> Seq<Seq<char>>
    decreases text.len(),
{
    if text.len() == 0 {
        Seq::empty()
    } else {
        let end = first_index(text, '\n');
        if 0 <= end < text.len() {
            seq![without_return(text.take(end))] + lines_of(text.skip(end + 1))
        } else {
            seq![text]
        }
    }
}

/// Splits a text into its lines.
pub fn lines(text: &str) -> (found: Vec<String>)
    ensures
        views(found@) == lines_of(text@),
{
    let chars = chars_of(text);
    let mut found: Vec<String> = Vec::new();
    let mut from: usize = 0;
    proof {
        assert(chars@.skip(0) =~= chars@);
        assert(views(found@) =~= Seq::empty());
        assert(lines_of(text@) =~= views(found@) + lines_of(chars@.skip(0)));
    }
    while from < chars.len()
        invariant
            from <= chars@.len(),
            chars@ == text@,
            lines_of(text@) == views(found@) + lines_of(chars@.skip(from as int)),
        decreases chars@.len() - from,
    {
        let mut end: usize = from;
        while end < chars.len() && chars[end] != '\n'
            invariant
                from <= end <= chars@.len(),
                forall|i: int| from <= i < end ==> chars@[i] != '\n',
            decreases chars@.len() - end,
        {
            end = end + 1;
        }
        let ghost rest = chars@.skip(from as int);
        proof {
            assert forall|i: int| 0 <= i < end - from implies rest[i] != '\n' by {
                assert(rest[i] == chars@[from + i]);
            }
            lemma_first_index_is(rest, '\n', end - from);
        }
        if end < chars.len() {
            let mut to: usize = end;
            if from < end && chars[end - 1] == '\r' {
                to = end - 1;
            }
            let line = slice_text(&chars, from, to);
            proof {
                let whole = rest.take(end - from);
                assert(whole =~= chars@.subrange(from as int, end as int));
                if from < end {
                    assert(whole.last() == chars@[end - 1]);
                }
                assert(line@ =~= without_return(whole));
                assert(rest.skip(end - from + 1) =~= chars@.skip(end + 1));
                crate::datum::lemma_views_push(found@, line);
                assert(lines_of(rest) == seq![line@] + lines_of(chars@.skip(end + 1)));
                assert(views(found@) + (seq![line@] + lines_of(chars@.skip(end + 1))) =~= views(
                    found@,
                ).push(line@) + lines_of(chars@.skip(end + 1)));
            }
            found.push(line);
            from = end + 1;
        } else {
            let line = slice_text(&chars, from, end);
            proof {
                assert(line@ =~= rest);
                crate::datum::lemma_views_push(found@, line);
                assert(chars@.skip(end as int).len() == 0);
                assert(views(found@) + seq![rest] =~= views(found@).push(line@) + lines_of(
                    chars@.skip(end as int),
                ));
            }
            found.push(line);
            from = end;
        }
    }
    proof {
        assert(lines_of(chars@.skip(from as int)) =~= Seq::<Seq<char>>::empty());
        assert(views(found@) + Seq::<Seq<char>>::empty() =~= views(found@));
    }
    found
}

/// The parts one after the other, with `gap` between neighbours.
pub open spec fn join_of(parts: Seq<Seq<char>>, gap: Seq<char>) -> Seq<char>
    decreases parts.len(),
{
    if parts.len() == 0 {
        Seq::empty()
    } else if parts.len() == 1 {
        parts[0]
    } else {
        join_of(parts.drop_last(), gap) + gap + parts.last()
    }
}

/// Joins texts with `gap` between neighbours.
pub fn join(parts: &Vec<String>, gap: &str) -> (joined: String)
    ensures
        joined@ == join_of(views(parts@), gap@),
{
    let mut joined = String::new();
    let mut index: usize = 0;
    proof {
        assert(views(parts@).take(0) =~= Seq::empty());
    }
    while index < parts.len()
        invariant
            index <= parts@.len(),
            joined@ == join_of(views(parts@).take(index as int), gap@),
        decreases parts@.len() - index,
    {
        proof {
            let next = views(parts@).take(index as int + 1);
            assert(next.drop_last() =~= views(parts@).take(index as int));
            assert(next.last() == parts@[index as int]@);
        }
        if index > 0 {
            joined.append(gap);
        }
        joined.append(parts[index].as_str());
        proof {
            if index == 0 {
                assert(joined@ =~= parts@[0]@);
            }
        }
        index = index + 1;
    }
    proof {
        assert(views(parts@).take(index as int) =~= views(parts@));
    }
    joined
}

// ---------------------------------------------------------------------------
// Splitting
// ---------------------------------------------------------------------------

/// The last position up to `from` at which a part stands in a text, or -1.
pub open spec fn last_index(text: Seq<char>, part: Seq<char>, from: int) -> int
    decreases from + 1,
{
    if from < 0 {
        -1
    } else if stands_at(text, part, from) {
        from
    } else {
        last_index(text, part, from - 1)
    }
}

/// What stands before and behind the last occurrence of a part, if there is one.
pub open spec fn rsplit_of(text: Seq<char>, part: Seq<char>) -> Option<(Seq<char>, Seq<char>)> {
    let at = last_index(text, part, text.len() as int);
    if at < 0 {
        None
    } else {
        Some((text.take(at), text.skip(at + part.len())))
    }
}

/// Splits a text at the last occurrence of a part.
pub fn rsplit(text: &str, part: &str) -> (split: Option<(String, String)>)
    ensures
        match split {
            Some((before, behind)) => rsplit_of(text@, part@) == Some((before@, behind@)),
            None => rsplit_of(text@, part@) is None,
        },
{
    let chars = chars_of(text);
    let wanted = chars_of(part);
    let mut at: usize = chars.len();
    while !matches_at(&chars, &wanted, at)
        invariant
            at <= chars@.len(),
            chars@ == text@,
            wanted@ == part@,
            last_index(text@, part@, text@.len() as int) == last_index(text@, part@, at as int),
        decreases at,
    {
        if at == 0 {
            assert(last_index(text@, part@, -1) == -1);
            return None;
        }
        at = at - 1;
    }
    let before = slice_text(&chars, 0, at);
    let behind = slice_text(&chars, at + wanted.len(), chars.len());
    proof {
        assert(before@ =~= text@.take(at as int));
        assert(behind@ =~= text@.skip(at as int + part@.len()));
    }
    Some((before, behind))
}

/// The number of characters at the start of a text that are no whitespace.
pub open spec fn field_length(text: Seq<char>) -> int
    decreases text.len(),
{
    if text.len() == 0 || whitespace(text[0]) {
        0
    } else {
        1 + field_length(text.skip(1))
    }
}

/// The parts of a text between whitespace.
pub open spec fn fields_of(text: Seq<char>) -> Seq<Seq<char>>
    decreases text.len(),
{
    if text.len() == 0 {
        Seq::empty()
    } else if whitespace(text[0]) {
        fields_of(text.skip(1))
    } else {
        let length = field_length(text);
        if 0 < length <= text.len() {
            seq![text.take(length)] + fields_of(text.skip(length))
        } else {
            Seq::empty()
        }
    }
}

proof fn lemma_field_length(text: Seq<char>, length: int)
    requires
        0 <= length <= text.len(),
        forall|i: int| 0 <= i < length ==> !whitespace(#[trigger] text[i]),
        length < text.len() ==> whitespace(text[length]),
    ensures
        field_length(text) == length,
    decreases length,
{
    if length > 0 {
        assert(!whitespace(text[0]));
        let rest = text.skip(1);
        assert forall|i: int| 0 <= i < length - 1 implies !whitespace(#[trigger] rest[i]) by {
            assert(rest[i] == text[i + 1]);
        }
        if length < text.len() {
            assert(rest[length - 1] == text[length]);
        }
        lemma_field_length(rest, length - 1);
    }
}

/// Splits a text at its whitespace.
pub fn fields(text: &str) -> (found: Vec<String>)
    ensures
        views(found@) == fields_of(text@),
{
    let chars = chars_of(text);
    let mut found: Vec<String> = Vec::new();
    let mut at: usize = 0;
    proof {
        assert(chars@.skip(0) =~= chars@);
        assert(views(found@) + fields_of(chars@.skip(0)) =~= fields_of(text@));
    }
    while at < chars.len()
        invariant
            at <= chars@.len(),
            chars@ == text@,
            fields_of(text@) == views(found@) + fields_of(chars@.skip(at as int)),
        decreases chars@.len() - at,
    {
        let ghost rest = chars@.skip(at as int);
        assert(rest[0] == chars@[at as int]);
        if is_whitespace(chars[at]) {
            assert(rest.skip(1) =~= chars@.skip(at as int + 1));
            at = at + 1;
        } else {
            let mut end: usize = at + 1;
            while end < chars.len() && !is_whitespace(chars[end])
                invariant
                    at < end <= chars@.len(),
                    forall|i: int| at <= i < end ==> !whitespace(#[trigger] chars@[i]),
                decreases chars@.len() - end,
            {
                end = end + 1;
            }
            let field = slice_text(&chars, at, end);
            proof {
                let length = end - at;
                assert forall|i: int| 0 <= i < length implies !whitespace(#[trigger] rest[i]) by {
                    assert(rest[i] == chars@[at + i]);
                }
                if length < rest.len() {
                    assert(rest[length] == chars@[end as int]);
                }
                lemma_field_length(rest, length);
                assert(rest.take(length) =~= field@);
                assert(rest.skip(length) =~= chars@.skip(end as int));
                lemma_views_push(found@, field);
                assert(views(found@) + fields_of(rest) =~= views(found@).push(field@) + fields_of(
                    chars@.skip(end as int),
                ));
            }
            found.push(field);
            at = end;
        }
    }
    proof {
        assert(chars@.skip(at as int) =~= Seq::<char>::empty());
        assert(views(found@) + Seq::<Seq<char>>::empty() =~= views(found@));
    }
    found
}

// ---------------------------------------------------------------------------
// Order
// ---------------------------------------------------------------------------

/// Lexicographic order by character code.
pub open spec fn precedes(left: Seq<char>, right: Seq<char>) -> bool
    decreases left.len(),
{
    if right.len() == 0 {
        false
    } else if left.len() == 0 {
        true
    } else if left[0] == right[0] {
        precedes(left.skip(1), right.skip(1))
    } else {
        (left[0] as int) < (right[0] as int)
    }
}

pub proof fn lemma_precedes_irreflexive(text: Seq<char>)
    ensures
        !precedes(text, text),
    decreases text.len(),
{
    if text.len() > 0 {
        lemma_precedes_irreflexive(text.skip(1));
    }
}

pub proof fn lemma_precedes_transitive(a: Seq<char>, b: Seq<char>, c: Seq<char>)
    requires
        precedes(a, b),
        precedes(b, c),
    ensures
        precedes(a, c),
    decreases a.len(),
{
    if a.len() > 0 && a[0] == b[0] && b[0] == c[0] {
        lemma_precedes_transitive(a.skip(1), b.skip(1), c.skip(1));
    }
}

pub proof fn lemma_precedes_total(a: Seq<char>, b: Seq<char>)
    ensures
        precedes(a, b) || a == b || precedes(b, a),
    decreases a.len(),
{
    if a.len() == 0 || b.len() == 0 {
        if a.len() == 0 && b.len() == 0 {
            assert(a =~= b);
        }
    } else if a[0] == b[0] {
        lemma_precedes_total(a.skip(1), b.skip(1));
        if a.skip(1) == b.skip(1) {
            assert(a =~= seq![a[0]] + a.skip(1));
            assert(b =~= seq![b[0]] + b.skip(1));
        }
    }
}

/// Where one text stands relative to another.
#[derive(Clone, Copy, Debug, PartialEq, Eq, Structural)]
pub enum Place {
    Before,
    Same,
    After,
}

/// The place of `left` relative to `right`.
pub open spec fn place_of(left: Seq<char>, right: Seq<char>) -> Place {
    if precedes(left, right) {
        Place::Before
    } else if left == right {
        Place::Same
    } else {
        Place::After
    }
}

pub fn place(left: &str, right: &str) -> (found: Place)
    ensures
        found == place_of(left@, right@),
        found is After ==> precedes(right@, left@),
        found is Same ==> left@ == right@,
        found is Before ==> left@ != right@,
{
    let a = chars_of(left);
    let b = chars_of(right);
    let mut index: usize = 0;
    proof {
        assert(a@.skip(0) =~= a@);
        assert(b@.skip(0) =~= b@);
        lemma_precedes_total(a@, b@);
        lemma_precedes_irreflexive(a@);
    }
    while index < a.len() && index < b.len() && a[index] == b[index]
        invariant
            index <= a@.len(),
            index <= b@.len(),
            a@.take(index as int) =~= b@.take(index as int),
            precedes(a@, b@) == precedes(a@.skip(index as int), b@.skip(index as int)),
        decreases a@.len() - index,
    {
        proof {
            assert(a@.skip(index as int).skip(1) =~= a@.skip(index as int + 1));
            assert(b@.skip(index as int).skip(1) =~= b@.skip(index as int + 1));
            assert(a@.take(index as int + 1) =~= a@.take(index as int).push(a@[index as int]));
            assert(b@.take(index as int + 1) =~= b@.take(index as int).push(b@[index as int]));
        }
        index = index + 1;
    }
    if index == b.len() {
        if index == a.len() {
            proof {
                assert(a@ =~= a@.take(index as int));
                assert(b@ =~= b@.take(index as int));
            }
            Place::Same
        } else {
            assert(a@ != b@);
            Place::After
        }
    } else if index == a.len() {
        Place::Before
    } else {
        assert(a@[index as int] != b@[index as int]);
        if code(a[index]) < code(b[index]) {
            Place::Before
        } else {
            Place::After
        }
    }
}

// ---------------------------------------------------------------------------
// Decimal numbers
// ---------------------------------------------------------------------------

pub open spec fn digit_of(value: nat) -> char {
    if value == 0 {
        '0'
    } else if value == 1 {
        '1'
    } else if value == 2 {
        '2'
    } else if value == 3 {
        '3'
    } else if value == 4 {
        '4'
    } else if value == 5 {
        '5'
    } else if value == 6 {
        '6'
    } else if value == 7 {
        '7'
    } else if value == 8 {
        '8'
    } else {
        '9'
    }
}

/// The decimal digits of a number, without leading zeros.
pub open spec fn decimal_of(value: nat) -> Seq<char>
    decreases value,
{
    if value < 10 {
        seq![digit_of(value)]
    } else {
        decimal_of(value / 10).push(digit_of(value % 10))
    }
}

fn digit(value: u64) -> (c: char)
    requires
        value < 10,
    ensures
        c == digit_of(value as nat),
{
    if value == 0 {
        '0'
    } else if value == 1 {
        '1'
    } else if value == 2 {
        '2'
    } else if value == 3 {
        '3'
    } else if value == 4 {
        '4'
    } else if value == 5 {
        '5'
    } else if value == 6 {
        '6'
    } else if value == 7 {
        '7'
    } else if value == 8 {
        '8'
    } else {
        '9'
    }
}

/// Writes a number in decimal.
pub fn decimal(value: u64) -> (text: String)
    ensures
        text@ == decimal_of(value as nat),
    decreases value,
{
    if value < 10 {
        let mut text = String::new();
        text.push(digit(value));
        proof {
            assert(text@ =~= seq![digit_of(value as nat)]);
        }
        text
    } else {
        let mut text = decimal(value / 10);
        text.push(digit(value % 10));
        text
    }
}

/// Writes a length in decimal.
pub fn decimal_usize(value: usize) -> (text: String)
    ensures
        text@ == decimal_of(value as nat),
{
    decimal(value as u64)
}

pub open spec fn is_digit(c: char) -> bool {
    0x30 <= c as int <= 0x39
}

/// Whether the text is a non-empty run of decimal digits.
pub open spec fn digits(text: Seq<char>) -> bool {
    text.len() > 0 && forall|i: int| 0 <= i < text.len() ==> is_digit(#[trigger] text[i])
}

/// The number that a run of digits denotes.
pub open spec fn value_of(text: Seq<char>) -> nat
    decreases text.len(),
{
    if text.len() == 0 {
        0
    } else {
        value_of(text.drop_last()) * 10 + (text.last() as int - 0x30) as nat
    }
}

/// A text without one leading plus sign.
pub open spec fn without_plus(text: Seq<char>) -> Seq<char> {
    if text.len() > 0 && text[0] == '+' {
        text.skip(1)
    } else {
        text
    }
}

/// The number that a text denotes: digits behind at most one plus sign, with a
/// value of at most `maximum`.
pub open spec fn number_of(text: Seq<char>, maximum: nat) -> Option<nat> {
    let body = without_plus(text);
    if digits(body) && value_of(body) <= maximum {
        Some(value_of(body))
    } else {
        None
    }
}

proof fn lemma_value_grows(text: Seq<char>, count: int)
    requires
        0 <= count <= text.len(),
        forall|i: int| 0 <= i < text.len() ==> is_digit(#[trigger] text[i]),
    ensures
        value_of(text.take(count)) <= value_of(text),
    decreases text.len() - count,
{
    if count == text.len() {
        assert(text.take(count) =~= text);
    } else {
        lemma_value_grows(text, count + 1);
        assert(text.take(count + 1).drop_last() =~= text.take(count));
    }
}

/// Reads a decimal number of at most `maximum`.
pub fn parse_number(text: &str, maximum: u64) -> (value: Option<u64>)
    ensures
        value matches Some(n) ==> number_of(text@, maximum as nat) == Some(n as nat),
        value is None ==> number_of(text@, maximum as nat) is None,
{
    let chars = chars_of(text);
    let mut from: usize = 0;
    if chars.len() > 0 && chars[0] == '+' {
        from = 1;
    }
    let ghost body = chars@.skip(from as int);
    proof {
        assert(chars@.skip(0) =~= chars@);
    }
    if from == chars.len() {
        return None;
    }
    let mut value: u64 = 0;
    let mut over: bool = false;
    let mut index: usize = from;
    proof {
        assert(body.take(0) =~= Seq::empty());
    }
    while index < chars.len()
        invariant
            from <= index <= chars@.len(),
            chars@ == text@,
            body == chars@.skip(from as int),
            body == without_plus(text@),
            forall|i: int| 0 <= i < index - from ==> is_digit(#[trigger] body[i]),
            !over ==> value as nat == value_of(body.take(index - from)),
            over ==> value_of(body.take(index - from)) > maximum,
            !over ==> value <= maximum,
        decreases chars@.len() - index,
    {
        let n: u32 = code(chars[index]);
        assert(body[index - from] == chars@[index as int]);
        if n < 0x30 || n > 0x39 {
            assert(!is_digit(body[index - from]));
            return None;
        }
        let ghost next = body.take(index - from + 1);
        proof {
            assert(next.drop_last() =~= body.take(index - from));
            assert(next.last() == chars@[index as int]);
        }
        if !over {
            let step: u128 = value as u128 * 10 + (n - 0x30) as u128;
            if step > maximum as u128 {
                over = true;
            } else {
                value = step as u64;
            }
        }
        index = index + 1;
    }
    proof {
        assert(body.take(index - from) =~= body);
        assert(digits(body));
    }
    if over {
        None
    } else {
        Some(value)
    }
}

// ---------------------------------------------------------------------------
// Sizes
// ---------------------------------------------------------------------------

/// A size, or the greatest machine size if it does not fit.
pub open spec fn capped(size: nat) -> usize {
    if size <= usize::MAX {
        size as usize
    } else {
        usize::MAX
    }
}

/// The sum of the sizes of UTF-8 texts.
pub open spec fn total_size(texts: Seq<Seq<char>>) -> nat
    decreases texts.len(),
{
    if texts.len() == 0 {
        0
    } else {
        total_size(texts.drop_last()) + encode_utf8(texts.last()).len()
    }
}

} // verus!
