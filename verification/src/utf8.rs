//! Bytes as UTF-8 text.

use vstd::prelude::*;
use vstd::utf8::*;

verus! {

/// The message of the error that `std::str::from_utf8` gives for bytes.
pub uninterp spec fn utf8_message(bytes: Seq<u8>) -> Seq<char>;

/// What `String::from_utf8_lossy` makes of bytes.
pub uninterp spec fn lossy_text(bytes: Seq<u8>) -> Seq<char>;

/// Where bytes stop being UTF-8.
#[derive(Debug, PartialEq, Eq)]
pub struct Utf8Fault {
    /// The length of the longest prefix that is valid.
    pub valid_up_to: usize,
    /// Whether the bytes end in the middle of a character, so that more bytes could
    /// complete it.
    pub incomplete: bool,
    pub message: String,
}

/// Whether `count` is the length of the longest prefix that is valid.
pub open spec fn longest_valid(bytes: Seq<u8>, count: int) -> bool {
    &&& 0 <= count <= bytes.len()
    &&& valid_utf8(bytes.take(count))
    &&& forall|n: int| count < n <= bytes.len() ==> !valid_utf8(#[trigger] bytes.take(n))
}

/// Whether more bytes could complete these to valid text.
pub open spec fn cut_short(bytes: Seq<u8>) -> bool {
    exists|more: Seq<u8>| valid_utf8(#[trigger] (bytes + more))
}

/// Whether a fault tells where and how bytes stop being text.
pub open spec fn fault_of(bytes: Seq<u8>, fault: Utf8Fault) -> bool {
    &&& !valid_utf8(bytes)
    &&& longest_valid(bytes, fault.valid_up_to as int)
    &&& fault.incomplete == cut_short(bytes.skip(fault.valid_up_to as int))
}

/// `std::str::from_utf8`: the text of valid bytes. Of other bytes it tells the length
/// of the longest valid prefix (`valid_up_to`), and whether the input ended in the
/// middle of a character (`error_len` is `None`). The wording of its error depends on
/// the bytes alone.
#[verifier::external_body]
pub(crate) fn decode(bytes: &Vec<u8>) -> (text: Result<String, Utf8Fault>)
    ensures
        match text {
            Ok(found) => valid_utf8(bytes@) && found@ == decode_utf8(bytes@),
            Err(fault) => fault_of(bytes@, fault) && fault.message@ == utf8_message(bytes@),
        },
{
    match std::str::from_utf8(bytes) {
        Ok(text) => Ok(text.to_owned()),
        Err(error) => Err(
            Utf8Fault {
                valid_up_to: error.valid_up_to(),
                incomplete: error.error_len().is_none(),
                message: error.to_string(),
            },
        ),
    }
}

/// `String::from_utf8_lossy`: valid bytes give their text; in other bytes what is no
/// text is replaced. The outcome depends on the bytes alone.
#[verifier::external_body]
pub(crate) fn decode_lossy(bytes: &Vec<u8>) -> (text: String)
    ensures
        text@ == lossy_text(bytes@),
        valid_utf8(bytes@) ==> text@ == decode_utf8(bytes@),
{
    String::from_utf8_lossy(bytes).into_owned()
}

/// The bytes of a text.
pub fn bytes_of(text: &str) -> (bytes: Vec<u8>)
    ensures
        bytes@ == encode_utf8(text@),
{
    let source = text.as_bytes();
    slice_bytes(source, 0, source.len())
}

/// The bytes from `from` up to, not including, `to`.
fn slice_bytes(source: &[u8], from: usize, to: usize) -> (bytes: Vec<u8>)
    requires
        from <= to <= source@.len(),
    ensures
        bytes@ == source@.subrange(from as int, to as int),
{
    let mut bytes: Vec<u8> = Vec::new();
    let mut index: usize = from;
    while index < to
        invariant
            from <= index <= to <= source@.len(),
            bytes@ == source@.subrange(from as int, index as int),
        decreases to - index,
    {
        proof {
            assert(source@.subrange(from as int, index as int + 1) =~= source@.subrange(
                from as int,
                index as int,
            ).push(source@[index as int]));
        }
        bytes.push(source[index]);
        index = index + 1;
    }
    bytes
}

/// The bytes from `from` up to, not including, `to`.
pub fn sub_bytes(source: &Vec<u8>, from: usize, to: usize) -> (bytes: Vec<u8>)
    requires
        from <= to <= source@.len(),
    ensures
        bytes@ == source@.subrange(from as int, to as int),
{
    slice_bytes(source.as_slice(), from, to)
}

/// The bytes with more of them, up to a limit.
pub open spec fn capped_bytes(kept: Seq<u8>, chunk: Seq<u8>, limit: nat) -> Seq<u8> {
    if kept.len() >= limit {
        kept
    } else if kept.len() + chunk.len() <= limit {
        kept + chunk
    } else {
        kept + chunk.take(limit - kept.len())
    }
}

/// Adds bytes up to a limit, and drops the rest.
pub fn append_capped(kept: &mut Vec<u8>, chunk: &Vec<u8>, limit: usize)
    ensures
        final(kept)@ == capped_bytes(old(kept)@, chunk@, limit as nat),
{
    let ghost start = kept@;
    let mut index: usize = 0;
    assert(start + chunk@.take(0) =~= start);
    while index < chunk.len() && kept.len() < limit
        invariant
            index <= chunk@.len(),
            start == old(kept)@,
            kept@ == start + chunk@.take(index as int),
            index > 0 ==> kept@.len() <= limit,
        decreases chunk@.len() - index,
    {
        assert(chunk@.take(index as int + 1) =~= chunk@.take(index as int).push(
            chunk@[index as int],
        ));
        kept.push(chunk[index]);
        assert(kept@ =~= start + chunk@.take(index as int + 1));
        index = index + 1;
    }
    assert(chunk@.take(chunk@.len() as int) =~= chunk@);
}

/// Whether two byte strings are the same.
pub fn same_bytes(left: &Vec<u8>, right: &Vec<u8>) -> (equal: bool)
    ensures
        equal == (left@ == right@),
{
    if left.len() != right.len() {
        return false;
    }
    let mut index: usize = 0;
    while index < left.len()
        invariant
            index <= left@.len(),
            left@.len() == right@.len(),
            forall|i: int| 0 <= i < index ==> left@[i] == right@[i],
        decreases left@.len() - index,
    {
        if left[index] != right[index] {
            return false;
        }
        index = index + 1;
    }
    assert(left@ =~= right@);
    true
}

/// The end of a valid prefix of valid bytes is a boundary of characters.
pub proof fn lemma_prefix_is_boundary(bytes: Seq<u8>, count: int)
    requires
        valid_utf8(bytes),
        0 <= count <= bytes.len(),
        valid_utf8(bytes.take(count)),
    ensures
        is_char_boundary(bytes, count),
    decreases bytes.len(),
{
    if count > 0 {
        let head = bytes.take(count);
        assert(valid_first_scalar(head));
        assert(head[0] == bytes[0]);
        let width = length_of_first_scalar(bytes);
        assert(length_of_first_scalar(head) == width);
        assert(width <= count);
        let rest = pop_first_scalar(bytes);
        assert(pop_first_scalar(head) =~= rest.take(count - width));
        lemma_prefix_is_boundary(rest, count - width);
    }
}

/// What follows a valid prefix of valid bytes is valid, and the texts add up.
pub proof fn lemma_valid_rest(bytes: Seq<u8>, count: int)
    requires
        valid_utf8(bytes),
        0 <= count <= bytes.len(),
        valid_utf8(bytes.take(count)),
    ensures
        valid_utf8(bytes.skip(count)),
        decode_utf8(bytes) == decode_utf8(bytes.take(count)) + decode_utf8(bytes.skip(count)),
{
    lemma_prefix_is_boundary(bytes, count);
    valid_utf8_split(bytes, count);
    decode_utf8_split(bytes, count);
    assert(bytes.subrange(0, count) =~= bytes.take(count));
    assert(bytes.subrange(count, bytes.len() as int) =~= bytes.skip(count));
}

/// In a piece of valid bytes that starts at a boundary, the longest valid prefix ends
/// at a boundary and what follows it is merely cut short. A piece of four bytes or
/// more holds at least one character.
pub proof fn lemma_piece(bytes: Seq<u8>, size: int, count: int)
    requires
        valid_utf8(bytes),
        0 <= size <= bytes.len(),
        longest_valid(bytes.take(size), count),
    ensures
        valid_utf8(bytes.take(count)),
        valid_utf8(bytes.skip(count)),
        decode_utf8(bytes) == decode_utf8(bytes.take(count)) + decode_utf8(bytes.skip(count)),
        cut_short(bytes.take(size).skip(count)),
        size == bytes.len() ==> count == size,
        bytes.len() > 0 && (size >= 4 || size == bytes.len()) ==> count > 0,
{
    let piece = bytes.take(size);
    assert(piece.take(count) =~= bytes.take(count));
    lemma_valid_rest(bytes, count);
    assert(piece.skip(count) + bytes.skip(size) =~= bytes.skip(count));
    assert(valid_utf8(piece.skip(count) + bytes.skip(size)));
    if size == bytes.len() {
        assert(piece =~= bytes);
        assert(piece.take(size) =~= piece);
        assert(valid_utf8(piece.take(size)));
    }
    if bytes.len() > 0 && (size >= 4 || size == bytes.len()) {
        let width = length_of_first_scalar(bytes);
        assert(1 <= width <= 4);
        assert(width <= bytes.len());
        assert(width <= size);
        let first = piece.take(width);
        assert(first[0] == bytes[0]);
        assert(valid_utf8(first)) by {
            assert(first =~= bytes.take(width));
            assert(valid_first_scalar(bytes));
            assert(decode_first_codepoint(first) == decode_first_codepoint(bytes));
            assert(valid_first_scalar(first));
            assert(pop_first_scalar(first) =~= Seq::<u8>::empty());
            assert(valid_utf8(Seq::<u8>::empty()));
        }
        assert(count >= width);
    }
}

} // verus!
