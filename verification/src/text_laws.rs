//! What holds of the texts that are cut, joined and read.

use vstd::prelude::*;

use crate::text::{
    capped, decimal_of, digits, fields_of, field_length, first_index, is_digit, join_of,
    last_index, lemma_first_index, lemma_first_index_is, lines_of, number_of, occurs, rsplit_of,
    stands_at, total_size, trim_end_of, trim_of, trim_start_of, value_of, whitespace,
    without_prefix, without_return,
};
use vstd::utf8::encode_utf8;

verus! {

proof fn lemma_part_of_join(parts: Seq<Seq<char>>, gap: Seq<char>, index: int) -> (around: (
    Seq<char>,
    Seq<char>,
))
    requires
        0 <= index < parts.len(),
    ensures
        join_of(parts, gap) == around.0 + parts[index] + around.1,
    decreases parts.len(),
{
    if parts.len() == 1 {
        let none = Seq::<char>::empty();
        assert(join_of(parts, gap) =~= none + parts[index] + none);
        (none, none)
    } else if index == parts.len() - 1 {
        let none = Seq::<char>::empty();
        let before = join_of(parts.drop_last(), gap) + gap;
        assert(join_of(parts, gap) =~= before + parts[index] + none);
        (before, none)
    } else {
        let (before, behind) = lemma_part_of_join(parts.drop_last(), gap, index);
        let longer = behind + gap + parts.last();
        assert(parts.drop_last()[index] == parts[index]);
        assert(join_of(parts, gap) =~= before + parts[index] + longer);
        (before, longer)
    }
}

/// Every part stands in the text that they are joined to.
pub proof fn law_joined_texts_hold_each_part(parts: Seq<Seq<char>>, gap: Seq<char>, index: int)
    requires
        0 <= index < parts.len(),
    ensures
        occurs(join_of(parts, gap), parts[index]),
{
    let (before, behind) = lemma_part_of_join(parts, gap, index);
    let whole = before + parts[index] + behind;
    assert(whole.subrange(before.len() as int, (before.len() + parts[index].len()) as int)
        =~= parts[index]);
    assert(stands_at(whole, parts[index], before.len() as int));
}

/// Joining adds the gap between neighbours and nothing else.
pub proof fn law_joining_adds_gaps_alone(parts: Seq<Seq<char>>, gap: Seq<char>, part: Seq<char>)
    ensures
        join_of(Seq::empty(), gap).len() == 0,
        parts.len() == 0 ==> join_of(parts.push(part), gap) == part,
        parts.len() > 0 ==> join_of(parts.push(part), gap) == join_of(parts, gap) + gap + part,
{
    assert(parts.push(part).drop_last() =~= parts);
}

/// A number is written in decimal digits, without a nought in front, and the digits denote it.
pub proof fn law_decimals_denote_their_number(number: nat)
    ensures
        digits(decimal_of(number)),
        value_of(decimal_of(number)) == number,
        decimal_of(number).len() > 1 ==> decimal_of(number)[0] != '0',
        number < 10 ==> decimal_of(number).len() == 1,
        number > 0 ==> decimal_of(number)[0] != '0',
    decreases number,
{
    let written = decimal_of(number);
    if number < 10 {
        assert(written.drop_last() =~= Seq::<char>::empty());
        assert(value_of(written.drop_last()) == 0);
        assert(is_digit(written[0]));
        assert(written.last() as int - 0x30 == number);
    } else {
        law_decimals_denote_their_number(number / 10);
        let front = decimal_of(number / 10);
        assert(written.drop_last() =~= front);
        assert(written.last() as int - 0x30 == number % 10);
        assert forall|i: int| 0 <= i < written.len() implies is_digit(#[trigger] written[i]) by {
            if i < front.len() {
                assert(written[i] == front[i]);
                assert(is_digit(front[i]));
            }
        }
        assert(written[0] == front[0]);
    }
}

/// Two numbers that are written alike are the same.
pub proof fn law_different_numbers_are_written_differently(one: nat, other: nat)
    requires
        decimal_of(one) == decimal_of(other),
    ensures
        one == other,
{
    law_decimals_denote_their_number(one);
    law_decimals_denote_their_number(other);
}

/// A written number is read as that number where it is not beyond the maximum.
pub proof fn law_written_numbers_are_read_back(number: nat, maximum: nat)
    ensures
        number_of(decimal_of(number), maximum) == (if number <= maximum {
            Some(number)
        } else {
            None
        }),
{
    law_decimals_denote_their_number(number);
    assert(is_digit(decimal_of(number)[0]));
}

proof fn lemma_trim_start(text: Seq<char>) -> (at: int)
    ensures
        0 <= at <= text.len(),
        trim_start_of(text) == text.skip(at),
        forall|i: int| 0 <= i < at ==> whitespace(#[trigger] text[i]),
        at < text.len() ==> !whitespace(text[at]),
    decreases text.len(),
{
    if text.len() > 0 && whitespace(text[0]) {
        let at = lemma_trim_start(text.skip(1));
        assert(text.skip(1).skip(at) =~= text.skip(at + 1));
        assert forall|i: int| 0 <= i < at + 1 implies whitespace(#[trigger] text[i]) by {
            if i > 0 {
                assert(text.skip(1)[i - 1] == text[i]);
            }
        }
        at + 1
    } else {
        assert(text.skip(0) =~= text);
        0
    }
}

proof fn lemma_trim_end(text: Seq<char>) -> (at: int)
    ensures
        0 <= at <= text.len(),
        trim_end_of(text) == text.take(at),
        forall|i: int| at <= i < text.len() ==> whitespace(#[trigger] text[i]),
        at > 0 ==> !whitespace(text[at - 1]),
    decreases text.len(),
{
    if text.len() > 0 && whitespace(text.last()) {
        let front = text.drop_last();
        let at = lemma_trim_end(front);
        assert(front.take(at) =~= text.take(at));
        assert forall|i: int| at <= i < text.len() implies whitespace(#[trigger] text[i]) by {
            if i < front.len() {
                assert(front[i] == text[i]);
            }
        }
        at
    } else {
        assert(text.take(text.len() as int) =~= text);
        text.len() as int
    }
}

/// Trimming takes whitespace off both ends and nothing else: what is left is a stretch of the
/// text that neither begins nor ends with whitespace, and everything around it is whitespace.
pub proof fn law_trimming_takes_whitespace_alone(text: Seq<char>) -> (cut: (int, int))
    ensures
        0 <= cut.0 <= cut.1 <= text.len(),
        trim_of(text) == text.subrange(cut.0, cut.1),
        forall|i: int| 0 <= i < cut.0 ==> whitespace(#[trigger] text[i]),
        forall|i: int| cut.1 <= i < text.len() ==> whitespace(#[trigger] text[i]),
        trim_of(text).len() > 0 ==> !whitespace(trim_of(text)[0]) && !whitespace(
            trim_of(text).last(),
        ),
{
    let from = lemma_trim_start(text);
    let rest = text.skip(from);
    let to = lemma_trim_end(rest);
    assert(rest.take(to) =~= text.subrange(from, from + to));
    assert forall|i: int| from + to <= i < text.len() implies whitespace(#[trigger] text[i]) by {
        assert(rest[i - from] == text[i]);
    }
    (from, from + to)
}

/// What is behind a prefix, put behind it again, is the text.
pub proof fn law_prefixes_and_rests_make_up_the_text(text: Seq<char>, part: Seq<char>)
    ensures
        without_prefix(text, part) matches Some(rest) ==> text == part + rest,
        without_prefix(part + text, part) == Some(text),
{
    match without_prefix(text, part) {
        Some(rest) => {
            assert(text =~= part + rest);
        },
        None => {},
    }
    assert((part + text).subrange(0, part.len() as int) =~= part);
    assert((part + text).skip(part.len() as int) =~= text);
}

proof fn lemma_last_index(text: Seq<char>, part: Seq<char>, from: int)
    ensures
        last_index(text, part, from) <= from || from < 0,
        last_index(text, part, from) >= 0 ==> stands_at(text, part, last_index(text, part, from)),
        forall|at: int|
            last_index(text, part, from) < at <= from && 0 <= at ==> !#[trigger] stands_at(
                text,
                part,
                at,
            ),
    decreases from + 1,
{
    if from >= 0 && !stands_at(text, part, from) {
        lemma_last_index(text, part, from - 1);
    }
}

/// A text is split at the last place where the part stands: the pieces, with the part between
/// them, are the text, and the part stands nowhere further behind.
pub proof fn law_splits_are_at_the_last_place(text: Seq<char>, part: Seq<char>)
    ensures
        rsplit_of(text, part) is Some <==> occurs(text, part),
        rsplit_of(text, part) matches Some((before, behind)) ==> text == before + part + behind
            && forall|at: int| before.len() < at ==> !#[trigger] stands_at(text, part, at),
{
    lemma_last_index(text, part, text.len() as int);
    let at = last_index(text, part, text.len() as int);
    if occurs(text, part) {
        let place = choose|place: int| stands_at(text, part, place);
        assert(stands_at(text, part, place));
        assert(place <= text.len());
        assert(at >= 0);
    }
    match rsplit_of(text, part) {
        Some((before, behind)) => {
            assert(text =~= before + part + behind);
        },
        None => {},
    }
}

/// No line holds a line feed, a text without one is its only line, and only the empty text has
/// no line.
pub proof fn law_lines_end_at_line_feeds(text: Seq<char>)
    ensures
        text.len() == 0 <==> lines_of(text).len() == 0,
        forall|i: int|
            0 <= i < lines_of(text).len() ==> !(#[trigger] lines_of(text)[i]).contains('\n'),
        !text.contains('\n') && text.len() > 0 ==> lines_of(text) == seq![text],
    decreases text.len(),
{
    if text.len() > 0 {
        lemma_first_index(text, '\n');
        let end = first_index(text, '\n');
        let lines = lines_of(text);
        if end < text.len() {
            let rest = text.skip(end + 1);
            law_lines_end_at_line_feeds(rest);
            let first = without_return(text.take(end));
            assert(lines =~= seq![first] + lines_of(rest));
            assert(text[end] == '\n');
            assert forall|i: int| 0 <= i < lines.len() implies !(#[trigger] lines[i]).contains(
                '\n',
            ) by {
                if i == 0 {
                    if first.contains('\n') {
                        let k = choose|k: int| 0 <= k < first.len() && first[k] == '\n';
                        assert(text[k] == '\n');
                    }
                } else {
                    assert(lines[i] == lines_of(rest)[i - 1]);
                }
            }
        } else {
            assert forall|i: int| 0 <= i < text.len() implies text[i] != '\n' by {}
            assert(!text.contains('\n'));
        }
    }
}

/// A first line that ends with a line feed, alone or behind a carriage return, is cut off there,
/// and the lines behind it are those of the rest.
pub proof fn law_lines_are_cut_one_by_one(line: Seq<char>, rest: Seq<char>)
    requires
        !line.contains('\n'),
    ensures
        line.len() == 0 || line.last() != '\r' ==> lines_of(line + "\n"@ + rest) == seq![line]
            + lines_of(rest),
        lines_of(line + "\r\n"@ + rest) == seq![line] + lines_of(rest),
{
    reveal_strlit("\n");
    reveal_strlit("\r\n");
    assert forall|i: int| 0 <= i < line.len() implies line[i] != '\n' by {
        if line[i] == '\n' {
            assert(line.contains('\n'));
        }
    }
    let plain = line + "\n"@ + rest;
    lemma_first_index_is(plain, '\n', line.len() as int);
    assert(plain.take(line.len() as int) =~= line);
    assert(plain.skip(line.len() as int + 1) =~= rest);
    let returned = line + "\r\n"@ + rest;
    lemma_first_index_is(returned, '\n', line.len() as int + 1);
    assert(returned.take(line.len() as int + 1) =~= line.push('\r'));
    assert(line.push('\r').drop_last() =~= line);
    assert(returned.skip(line.len() as int + 2) =~= rest);
}

proof fn lemma_field(text: Seq<char>)
    ensures
        0 <= field_length(text) <= text.len(),
        forall|i: int| 0 <= i < field_length(text) ==> !whitespace(#[trigger] text[i]),
        field_length(text) < text.len() ==> whitespace(text[field_length(text)]),
    decreases text.len(),
{
    if text.len() > 0 && !whitespace(text[0]) {
        let rest = text.skip(1);
        lemma_field(rest);
        assert forall|i: int| 0 <= i < field_length(text) implies !whitespace(
            #[trigger] text[i],
        ) by {
            if i > 0 {
                assert(rest[i - 1] == text[i]);
            }
        }
    }
}

/// The parts of a text between whitespace are never empty and hold no whitespace.
pub proof fn law_fields_hold_no_whitespace(text: Seq<char>)
    ensures
        forall|i: int|
            0 <= i < fields_of(text).len() ==> (#[trigger] fields_of(text)[i]).len() > 0 && forall|
                k: int,
            |
                0 <= k < fields_of(text)[i].len() ==> !whitespace(
                    #[trigger] fields_of(text)[i][k],
                ),
        fields_of(text).len() == 0 <==> forall|i: int|
            0 <= i < text.len() ==> whitespace(#[trigger] text[i]),
    decreases text.len(),
{
    if text.len() > 0 {
        let rest = text.skip(1);
        if whitespace(text[0]) {
            law_fields_hold_no_whitespace(rest);
            if forall|i: int| 0 <= i < text.len() ==> whitespace(#[trigger] text[i]) {
                assert forall|i: int| 0 <= i < rest.len() implies whitespace(
                    #[trigger] rest[i],
                ) by {
                    assert(rest[i] == text[i + 1]);
                }
            }
            if fields_of(text).len() == 0 {
                assert forall|i: int| 0 <= i < text.len() implies whitespace(
                    #[trigger] text[i],
                ) by {
                    if i > 0 {
                        assert(rest[i - 1] == text[i]);
                    }
                }
            }
        } else {
            lemma_field(text);
            let length = field_length(text);
            assert(length > 0);
            law_fields_hold_no_whitespace(text.skip(length));
            let found = fields_of(text);
            let others = fields_of(text.skip(length));
            assert(found =~= seq![text.take(length)] + others);
            assert forall|i: int| 0 <= i < found.len() implies (#[trigger] found[i]).len() > 0
                && forall|k: int| 0 <= k < found[i].len() ==> !whitespace(#[trigger] found[i][k]) by {
                if i > 0 {
                    assert(found[i] == others[i - 1]);
                } else {
                    assert forall|k: int| 0 <= k < found[0].len() implies !whitespace(
                        #[trigger] found[0][k],
                    ) by {
                        assert(found[0][k] == text[k]);
                    }
                }
            }
        }
    }
}

/// Sizes are added up over all texts, in bytes, and stop at the greatest size.
pub proof fn law_sizes_add_up(texts: Seq<Seq<char>>, text: Seq<char>)
    ensures
        total_size(Seq::empty()) == 0,
        total_size(texts.push(text)) == total_size(texts) + encode_utf8(text).len(),
        total_size(texts) <= usize::MAX ==> capped(total_size(texts)) == total_size(texts),
        total_size(texts) > usize::MAX ==> capped(total_size(texts)) == usize::MAX,
{
    assert(texts.push(text).drop_last() =~= texts);
}

} // verus!
