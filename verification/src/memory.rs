//! Advisory memory: records, recall, and memory in the context of a turn.

use vstd::prelude::*;
use vstd::string::*;

use crate::datum::{
    done_view, lemma_views_push, lemma_views_take, opt_view, res_view, same_all, same_opt,
    snapshot_all, snapshot_opt, views, Datum,
};
use crate::context::{
    CompiledContext, CompiledContextView, ContextCompiler, ContextError, ContextErrorView,
    ContextInput, PromptLayer, PromptSegment, PromptSegmentView,
};
use crate::id::{ThreadId, TurnId};
use crate::keyed::{ascending, key_list, keyed_view, snapshot_keyed, Keyed};
use crate::protocol::{TranscriptMessage, TranscriptMessageView};
use crate::store::WriteOutcome;
use crate::text::{
    blank, chars_of, contains_text, decimal_of, decimal_usize, is_blank, join, join_of,
    lemma_precedes_irreflexive, lemma_precedes_total, lemma_precedes_transitive, occurs, place,
    precedes, slice_text, trim, trim_of, Place,
};

verus! {

// ---------------------------------------------------------------------------
// Words
// ---------------------------------------------------------------------------

/// Whether `char::is_alphanumeric` holds of a character.
pub uninterp spec fn alphanumeric(c: char) -> bool;

/// What `str::to_lowercase` makes of a text.
pub uninterp spec fn lowered(text: Seq<char>) -> Seq<char>;

/// `char::is_alphanumeric`: a property of the character alone.
pub assume_specification[ char::is_alphanumeric ](c: char) -> (yes: bool)
    ensures
        yes == alphanumeric(c),
;

/// `str::to_lowercase`: a function of the text alone.
pub assume_specification[ str::to_lowercase ](text: &str) -> (lower: String)
    ensures
        lower@ == lowered(text@),
;

/// The number of alphanumeric characters at the start of a text.
pub open spec fn word_length(text: Seq<char>) -> int
    decreases text.len(),
{
    if text.len() == 0 || !alphanumeric(text[0]) {
        0
    } else {
        1 + word_length(text.skip(1))
    }
}

/// The words of a text: its longest runs of alphanumeric characters.
pub open spec fn words_of(text: Seq<char>) -> Seq<Seq<char>>
    decreases text.len(),
{
    if text.len() == 0 {
        Seq::empty()
    } else if !alphanumeric(text[0]) {
        words_of(text.skip(1))
    } else {
        let length = word_length(text);
        if 0 < length <= text.len() {
            seq![text.take(length)] + words_of(text.skip(length))
        } else {
            Seq::empty()
        }
    }
}

/// The words of a text in lower case.
pub open spec fn tokens_of(text: Seq<char>) -> Set<Seq<char>> {
    words_of(text).map_values(|word: Seq<char>| lowered(word)).to_set()
}

proof fn lemma_word_length(text: Seq<char>, length: int)
    requires
        0 <= length <= text.len(),
        forall|i: int| 0 <= i < length ==> alphanumeric(#[trigger] text[i]),
        length < text.len() ==> !alphanumeric(text[length]),
    ensures
        word_length(text) == length,
    decreases length,
{
    if length > 0 {
        assert(alphanumeric(text[0]));
        let rest = text.skip(1);
        assert forall|i: int| 0 <= i < length - 1 implies alphanumeric(#[trigger] rest[i]) by {
            assert(rest[i] == text[i + 1]);
        }
        if length < text.len() {
            assert(rest[length - 1] == text[length]);
        }
        lemma_word_length(rest, length - 1);
    }
}

/// The words of a text in lower case, each once.
fn tokens(text: &str) -> (found: Keyed<bool>)
    ensures
        found@.dom() == tokens_of(text@),
{
    let chars = chars_of(text);
    let mut found: Keyed<bool> = Keyed::new();
    let ghost mut listed: Seq<Seq<char>> = Seq::empty();
    let mut at: usize = 0;
    proof {
        assert(chars@.skip(0) =~= chars@);
        assert(listed + words_of(chars@.skip(0)) =~= words_of(text@));
        assert(found@.dom() =~= lower_all(listed).to_set());
    }
    while at < chars.len()
        invariant
            at <= chars@.len(),
            chars@ == text@,
            words_of(text@) == listed + words_of(chars@.skip(at as int)),
            found@.dom() == lower_all(listed).to_set(),
        decreases chars@.len() - at,
    {
        let ghost rest = chars@.skip(at as int);
        assert(rest[0] == chars@[at as int]);
        if !chars[at].is_alphanumeric() {
            assert(rest.skip(1) =~= chars@.skip(at as int + 1));
            at = at + 1;
        } else {
            let mut end: usize = at + 1;
            while end < chars.len() && chars[end].is_alphanumeric()
                invariant
                    at < end <= chars@.len(),
                    forall|i: int| at <= i < end ==> alphanumeric(#[trigger] chars@[i]),
                decreases chars@.len() - end,
            {
                end = end + 1;
            }
            let word = slice_text(&chars, at, end);
            proof {
                let length = end - at;
                assert forall|i: int| 0 <= i < length implies alphanumeric(#[trigger] rest[i]) by {
                    assert(rest[i] == chars@[at + i]);
                }
                if length < rest.len() {
                    assert(rest[length] == chars@[end as int]);
                }
                lemma_word_length(rest, length);
                assert(rest.take(length) =~= word@);
                assert(rest.skip(length) =~= chars@.skip(end as int));
                assert(listed + words_of(rest) =~= listed.push(word@) + words_of(
                    chars@.skip(end as int),
                ));
            }
            let ghost before = found@.dom();
            let lower = word.as_str().to_lowercase();
            let ghost token = lower@;
            let _ = found.insert(lower, true);
            proof {
                lemma_lower_push(listed, word@);
                listed = listed.push(word@);
                assert(found@.dom() =~= lower_all(listed).to_set());
            }
            at = end;
        }
    }
    proof {
        assert(chars@.skip(at as int) =~= Seq::<char>::empty());
        assert(listed + Seq::<Seq<char>>::empty() =~= listed);
    }
    found
}

spec fn lower_all(words: Seq<Seq<char>>) -> Seq<Seq<char>> {
    words.map_values(|word: Seq<char>| lowered(word))
}

proof fn lemma_lower_push(words: Seq<Seq<char>>, word: Seq<char>)
    ensures
        lower_all(words.push(word)).to_set() == lower_all(words).to_set().insert(lowered(word)),
{
    let before = lower_all(words);
    let after = lower_all(words.push(word));
    assert(after =~= before.push(lowered(word)));
    assert forall|token: Seq<char>| #[trigger] after.to_set().contains(token) == before.to_set().insert(
        lowered(word),
    ).contains(token) by {
        if before.contains(token) {
            let i = choose|i: int| 0 <= i < before.len() && before[i] == token;
            assert(after[i] == token);
        }
        if token == lowered(word) {
            assert(after[before.len() as int] == token);
        }
        if after.contains(token) {
            let i = choose|i: int| 0 <= i < after.len() && after[i] == token;
            if i < before.len() {
                assert(before[i] == token);
            }
        }
    }
    assert(after.to_set() =~= before.to_set().insert(lowered(word)));
}

/// The number of keys that two maps share.
fn count_shared(left: &Keyed<bool>, right: &Keyed<bool>) -> (count: usize)
    ensures
        count as nat == left@.dom().intersect(right@.dom()).len(),
{
    let size: usize = left.len();
    let ghost keys = left.keys();
    let ghost other = right@.dom();
    let mut count: usize = 0;
    let mut index: usize = 0;
    proof {
        assert(keys.take(0).to_set().intersect(other) =~= Set::<Seq<char>>::empty());
    }
    while index < size
        invariant
            index <= size,
            count <= index,
            size == keys.len(),
            keys == left.keys(),
            keys.no_duplicates(),
            other == right@.dom(),
            keys.take(index as int).to_set().intersect(other).finite(),
            count as nat == keys.take(index as int).to_set().intersect(other).len(),
        decreases size - index,
    {
        let key = left.key_at(index);
        proof {
            let past = keys.take(index as int);
            let grown = keys.take(index as int + 1);
            assert(grown =~= past.push(key@));
            assert(!past.contains(key@)) by {
                if past.contains(key@) {
                    let i = choose|i: int| 0 <= i < past.len() && past[i] == key@;
                    assert(keys[i] == keys[index as int]);
                }
            }
            assert forall|k: Seq<char>| #[trigger] grown.to_set().contains(k) == past.to_set().insert(
                key@,
            ).contains(k) by {
                if past.contains(k) {
                    let i = choose|i: int| 0 <= i < past.len() && past[i] == k;
                    assert(grown[i] == k);
                }
                if k == key@ {
                    assert(grown[index as int] == k);
                }
                if grown.contains(k) {
                    let i = choose|i: int| 0 <= i < grown.len() && grown[i] == k;
                    if i < past.len() {
                        assert(past[i] == k);
                    }
                }
            }
            if other.contains(key@) {
                assert(grown.to_set().intersect(other) =~= past.to_set().intersect(other).insert(
                    key@,
                ));
            } else {
                assert(grown.to_set().intersect(other) =~= past.to_set().intersect(other));
            }
        }
        if right.contains(key.as_str()) {
            count = count + 1;
        }
        index = index + 1;
    }
    proof {
        assert(keys.take(index as int) =~= keys);
        assert(left@.dom() =~= keys.to_set());
    }
    count
}

// ---------------------------------------------------------------------------
// Records
// ---------------------------------------------------------------------------

/// One remembered sentence.
#[derive(Debug, PartialEq, Eq)]
pub struct MemoryRecord {
    pub id: String,
    pub text: String,
    pub tags: Keyed<bool>,
    pub source: Option<String>,
    pub created_at_unix_ms: u64,
    pub updated_at_unix_ms: u64,
}

/// The model of [`MemoryRecord`].
#[verifier::ext_equal]
pub ghost struct MemoryRecordView {
    pub id: Seq<char>,
    pub text: Seq<char>,
    /// The tags, in ascending order.
    pub tags: Seq<Seq<char>>,
    pub source: Option<Seq<char>>,
    pub created_at_unix_ms: u64,
    pub updated_at_unix_ms: u64,
}

impl View for MemoryRecord {
    type V = MemoryRecordView;

    open spec fn view(&self) -> MemoryRecordView {
        MemoryRecordView {
            id: self.id@,
            text: self.text@,
            tags: self.tags.keys(),
            source: opt_view(self.source),
            created_at_unix_ms: self.created_at_unix_ms,
            updated_at_unix_ms: self.updated_at_unix_ms,
        }
    }
}

impl Datum for MemoryRecord {
    fn snapshot(&self) -> (copy: Self) {
        MemoryRecord {
            id: self.id.clone(),
            text: self.text.clone(),
            tags: snapshot_keyed(&self.tags),
            source: snapshot_opt(&self.source),
            created_at_unix_ms: self.created_at_unix_ms,
            updated_at_unix_ms: self.updated_at_unix_ms,
        }
    }

    fn same(&self, other: &Self) -> (equal: bool) {
        self.id.same(&other.id) && self.text.same(&other.text) && same_all(
            &key_list(&self.tags),
            &key_list(&other.tags),
        ) && same_opt(&self.source, &other.source) && self.created_at_unix_ms
            == other.created_at_unix_ms && self.updated_at_unix_ms == other.updated_at_unix_ms
    }
}

impl Clone for MemoryRecord {
    fn clone(&self) -> (copy: Self)
        ensures
            copy@ == self@,
    {
        self.snapshot()
    }
}

impl MemoryRecord {
    /// A record without tags and source, under an identifier and time that the host gives.
    pub fn new(id: String, text: String, now: u64) -> (record: Self)
        ensures
            record@ == (MemoryRecordView {
                id: id@,
                text: text@,
                tags: Seq::empty(),
                source: None,
                created_at_unix_ms: now,
                updated_at_unix_ms: now,
            }),
    {
        MemoryRecord {
            id,
            text,
            tags: Keyed::new(),
            source: None,
            created_at_unix_ms: now,
            updated_at_unix_ms: now,
        }
    }

    /// The record with one more tag.
    pub fn with_tag(self, tag: String) -> (record: Self)
        ensures
            record@ == (MemoryRecordView { tags: record@.tags, ..self@ }),
            ascending(record@.tags),
            record@.tags.to_set() == self@.tags.to_set().insert(tag@),
    {
        let mut tags = self.tags;
        let _ = tags.len();
        let ghost before = tags@.dom();
        let _ = tags.insert(tag, true);
        let _ = tags.len();
        assert(tags@.dom() =~= before.insert(tag@));
        MemoryRecord { tags, ..self }
    }
}

/// Why memory could not be used.
#[derive(Debug, PartialEq, Eq)]
pub enum MemoryError {
    Io(String),
    Serialization(String),
    Corrupt { line: usize, message: String },
    Poisoned,
}

/// The model of [`MemoryError`].
#[verifier::ext_equal]
pub ghost enum MemoryErrorView {
    Io(Seq<char>),
    Serialization(Seq<char>),
    Corrupt { line: usize, message: Seq<char> },
    Poisoned,
}

impl View for MemoryError {
    type V = MemoryErrorView;

    open spec fn view(&self) -> MemoryErrorView {
        match *self {
            MemoryError::Io(x0) => MemoryErrorView::Io(x0@),
            MemoryError::Serialization(x0) => MemoryErrorView::Serialization(x0@),
            MemoryError::Corrupt { line, message } => MemoryErrorView::Corrupt {
                line,
                message: message@,
            },
            MemoryError::Poisoned => MemoryErrorView::Poisoned,
        }
    }
}

impl Datum for MemoryError {
    fn snapshot(&self) -> (copy: Self) {
        match self {
            MemoryError::Io(x0) => MemoryError::Io(x0.snapshot()),
            MemoryError::Serialization(x0) => MemoryError::Serialization(x0.snapshot()),
            MemoryError::Corrupt { line, message } => MemoryError::Corrupt {
                line: *line,
                message: message.snapshot(),
            },
            MemoryError::Poisoned => MemoryError::Poisoned,
        }
    }

    fn same(&self, other: &Self) -> (equal: bool) {
        match (self, other) {
            (MemoryError::Io(x0), MemoryError::Io(y0)) => x0.same(y0),
            (MemoryError::Serialization(x0), MemoryError::Serialization(y0)) => x0.same(y0),
            (
                MemoryError::Corrupt { line: line_a, message: message_a },
                MemoryError::Corrupt { line: line_b, message: message_b },
            ) => *line_a == *line_b && message_a.same(message_b),
            (MemoryError::Poisoned, MemoryError::Poisoned) => true,
            _ => false,
        }
    }
}

impl Clone for MemoryError {
    fn clone(&self) -> (copy: Self)
        ensures
            copy@ == self@,
    {
        self.snapshot()
    }
}

/// The message of a failure.
pub open spec fn memory_error_text(error: MemoryErrorView) -> Seq<char> {
    match error {
        MemoryErrorView::Io(detail) => "memory I/O error: "@ + detail,
        MemoryErrorView::Serialization(detail) => "memory serialization error: "@ + detail,
        MemoryErrorView::Corrupt { line, message } => {
            "corrupt memory event at line "@ + decimal_of(line as nat) + ": "@ + message
        },
        MemoryErrorView::Poisoned => "memory store lock was poisoned"@,
    }
}

impl MemoryError {
    pub fn to_text(&self) -> (text: String)
        ensures
            text@ == memory_error_text(self@),
    {
        match self {
            MemoryError::Io(detail) => "memory I/O error: ".to_owned().concat(detail.as_str()),
            MemoryError::Serialization(detail) => {
                "memory serialization error: ".to_owned().concat(detail.as_str())
            },
            MemoryError::Corrupt { line, message } => {
                "corrupt memory event at line ".to_owned().concat(
                    decimal_usize(*line).as_str(),
                ).concat(": ").concat(message.as_str())
            },
            MemoryError::Poisoned => "memory store lock was poisoned".to_owned(),
        }
    }
}

// ---------------------------------------------------------------------------
// Recall
// ---------------------------------------------------------------------------

/// How well a record fits a query: one point for each word that they share, and four if
/// the whole query stands in the record's text, whatever the case.
pub open spec fn score_of(query: Seq<char>, record: MemoryRecordView) -> nat {
    let shared = tokens_of(query).intersect(
        tokens_of(record.text + " "@ + join_of(record.tags, " "@)),
    ).len();
    let bonus: nat = if !blank(query) && occurs(lowered(record.text), lowered(trim_of(query))) {
        4
    } else {
        0
    };
    shared + bonus
}

/// Whether a record is worth recalling for a query.
pub open spec fn relevant(query: Seq<char>, record: MemoryRecordView) -> bool {
    score_of(query, record) > 0 || tokens_of(query) == Set::<Seq<char>>::empty()
}

/// Whether a record is recalled before another one: by score, then the later update, then
/// the smaller identifier.
pub open spec fn ranks_before(
    query: Seq<char>,
    left: MemoryRecordView,
    right: MemoryRecordView,
) -> bool {
    let a = score_of(query, left);
    let b = score_of(query, right);
    a > b || (a == b && (left.updated_at_unix_ms > right.updated_at_unix_ms || (
    left.updated_at_unix_ms == right.updated_at_unix_ms && precedes(left.id, right.id))))
}

/// Puts a record in front of the last ones that it ranks before.
pub open spec fn placed(
    query: Seq<char>,
    ranked: Seq<MemoryRecordView>,
    record: MemoryRecordView,
) -> Seq<MemoryRecordView>
    decreases ranked.len(),
{
    if ranked.len() == 0 || !ranks_before(query, record, ranked.last()) {
        ranked.push(record)
    } else {
        placed(query, ranked.drop_last(), record).push(ranked.last())
    }
}

/// The relevant records in the order of their rank.
pub open spec fn ranked_of(query: Seq<char>, records: Seq<MemoryRecordView>) -> Seq<
    MemoryRecordView,
>
    decreases records.len(),
{
    if records.len() == 0 {
        Seq::empty()
    } else {
        let rest = ranked_of(query, records.drop_last());
        if relevant(query, records.last()) {
            placed(query, rest, records.last())
        } else {
            rest
        }
    }
}

/// The best records for a query, at most `limit` of them.
pub open spec fn recalled_of(
    query: Seq<char>,
    records: Seq<MemoryRecordView>,
    limit: nat,
) -> Seq<MemoryRecordView> {
    let ranked = ranked_of(query, records);
    if ranked.len() > limit {
        ranked.take(limit as int)
    } else {
        ranked
    }
}

/// Whether no record ranks before an earlier one.
pub open spec fn rank_order(query: Seq<char>, ranked: Seq<MemoryRecordView>) -> bool {
    forall|i: int, j: int|
        0 <= i < j < ranked.len() ==> !ranks_before(query, #[trigger] ranked[j], #[trigger] ranked[i])
}

proof fn lemma_rank_transitive(
    query: Seq<char>,
    a: MemoryRecordView,
    b: MemoryRecordView,
    c: MemoryRecordView,
)
    ensures
        !ranks_before(query, a, b) && !ranks_before(query, b, c) ==> !ranks_before(query, a, c),
        !(ranks_before(query, a, b) && ranks_before(query, b, a)),
{
    lemma_precedes_total(a.id, b.id);
    lemma_precedes_total(b.id, c.id);
    lemma_precedes_irreflexive(a.id);
    if precedes(a.id, b.id) && precedes(b.id, a.id) {
        lemma_precedes_transitive(a.id, b.id, a.id);
    }
    if precedes(b.id, a.id) && precedes(c.id, b.id) {
        lemma_precedes_transitive(c.id, b.id, a.id);
    }
    if precedes(a.id, c.id) && precedes(c.id, a.id) {
        lemma_precedes_transitive(a.id, c.id, a.id);
    }
}

proof fn lemma_placed(query: Seq<char>, ranked: Seq<MemoryRecordView>, record: MemoryRecordView)
    requires
        rank_order(query, ranked),
    ensures
        rank_order(query, placed(query, ranked, record)),
        placed(query, ranked, record).to_multiset() == ranked.to_multiset().insert(record),
        forall|i: int|
            0 <= i < placed(query, ranked, record).len() ==> (#[trigger] placed(
                query,
                ranked,
                record,
            )[i]) == record || ranked.contains(placed(query, ranked, record)[i]),
    decreases ranked.len(),
{
    broadcast use vstd::seq_lib::group_to_multiset_ensures;

    let result = placed(query, ranked, record);
    if ranked.len() == 0 || !ranks_before(query, record, ranked.last()) {
        assert forall|i: int| 0 <= i < result.len() implies (#[trigger] result[i]) == record
            || ranked.contains(result[i]) by {
            if i < ranked.len() {
                assert(ranked[i] == result[i]);
            }
        }
        assert forall|i: int, j: int| 0 <= i < j < result.len() implies !ranks_before(
            query,
            #[trigger] result[j],
            #[trigger] result[i],
        ) by {
            if j < ranked.len() {
                assert(!ranks_before(query, ranked[j], ranked[i]));
            } else {
                if i < ranked.len() - 1 {
                    assert(!ranks_before(query, ranked[ranked.len() - 1], ranked[i]));
                    lemma_rank_transitive(query, record, ranked.last(), ranked[i]);
                }
            }
        }
    } else {
        let front = ranked.drop_last();
        assert forall|i: int, j: int| 0 <= i < j < front.len() implies !ranks_before(
            query,
            #[trigger] front[j],
            #[trigger] front[i],
        ) by {
            assert(!ranks_before(query, ranked[j], ranked[i]));
        }
        lemma_placed(query, front, record);
        let inner = placed(query, front, record);
        assert(front.push(ranked.last()) =~= ranked);
        assert(ranked.to_multiset() =~= front.to_multiset().insert(ranked.last()));
        assert(result.to_multiset() =~= inner.to_multiset().insert(ranked.last()));
        assert(front.to_multiset().insert(record).insert(ranked.last())
            =~= front.to_multiset().insert(ranked.last()).insert(record));
        assert forall|i: int| 0 <= i < result.len() implies (#[trigger] result[i]) == record
            || ranked.contains(result[i]) by {
            if i < inner.len() {
                assert(result[i] == inner[i]);
                if inner[i] != record {
                    let k = choose|k: int| 0 <= k < front.len() && front[k] == inner[i];
                    assert(ranked[k] == result[i]);
                }
            } else {
                assert(ranked[ranked.len() - 1] == result[i]);
            }
        }
        assert forall|i: int, j: int| 0 <= i < j < result.len() implies !ranks_before(
            query,
            #[trigger] result[j],
            #[trigger] result[i],
        ) by {
            if j < inner.len() {
                assert(!ranks_before(query, inner[j], inner[i]));
            } else {
                assert(result[j] == ranked.last());
                assert(result[i] == inner[i]);
                if inner[i] == record {
                    lemma_rank_transitive(query, record, ranked.last(), record);
                } else {
                    let k = choose|k: int| 0 <= k < front.len() && front[k] == inner[i];
                    assert(!ranks_before(query, ranked[ranked.len() - 1], ranked[k]));
                }
            }
        }
    }
}

/// The relevant ones of the records.
pub open spec fn relevant_of(query: Seq<char>, records: Seq<MemoryRecordView>) -> Seq<
    MemoryRecordView,
> {
    records.filter(|record: MemoryRecordView| relevant(query, record))
}

/// Recall ranks: it drops the irrelevant records and nothing else, and never puts a record
/// behind one that it ranks before.
pub proof fn law_recall_is_ranked(query: Seq<char>, records: Seq<MemoryRecordView>)
    ensures
        rank_order(query, ranked_of(query, records)),
        ranked_of(query, records).to_multiset() == relevant_of(query, records).to_multiset(),
    decreases records.len(),
{
    broadcast use vstd::seq_lib::group_to_multiset_ensures;

    let keep = |record: MemoryRecordView| relevant(query, record);
    reveal(Seq::filter);
    if records.len() > 0 {
        law_recall_is_ranked(query, records.drop_last());
        lemma_placed(query, ranked_of(query, records.drop_last()), records.last());
    } else {
        assert(ranked_of(query, records) =~= relevant_of(query, records));
    }
}

fn score(query: &str, query_tokens: &Keyed<bool>, record: &MemoryRecord) -> (score: u128)
    requires
        query_tokens@.dom() == tokens_of(query@),
    ensures
        score as nat == score_of(query@, record@),
{
    let tags = key_list(&record.tags);
    let text = record.text.clone().concat(" ").concat(join(&tags, " ").as_str());
    let record_tokens = tokens(text.as_str());
    let shared: usize = count_shared(query_tokens, &record_tokens);
    let mut bonus: u128 = 0;
    if !is_blank(query) {
        let phrase = trim(query).as_str().to_lowercase();
        if contains_text(record.text.as_str().to_lowercase().as_str(), phrase.as_str()) {
            bonus = 4;
        }
    }
    shared as u128 + bonus
}

fn goes_before(left: &MemoryRecord, left_score: u128, right: &MemoryRecord, right_score: u128) -> (yes:
    bool)
    ensures
        yes == (left_score > right_score || (left_score == right_score && (
        left@.updated_at_unix_ms > right@.updated_at_unix_ms || (left@.updated_at_unix_ms
            == right@.updated_at_unix_ms && precedes(left@.id, right@.id))))),
{
    if left_score != right_score {
        return left_score > right_score;
    }
    if left.updated_at_unix_ms != right.updated_at_unix_ms {
        return left.updated_at_unix_ms > right.updated_at_unix_ms;
    }
    match place(left.id.as_str(), right.id.as_str()) {
        Place::Before => true,
        _ => false,
    }
}

/// Ranked records with their scores.
struct Ranking {
    records: Vec<MemoryRecord>,
    scores: Vec<u128>,
}

spec fn scored(query: Seq<char>, ranking: Ranking) -> bool {
    &&& ranking.records@.len() == ranking.scores@.len()
    &&& forall|i: int|
        0 <= i < ranking.records@.len() ==> (#[trigger] ranking.scores@[i]) as nat == score_of(
            query,
            ranking.records@[i]@,
        )
}

fn place_record(
    ranking: &mut Ranking,
    record: MemoryRecord,
    record_score: u128,
    Ghost(query): Ghost<Seq<char>>,
)
    requires
        scored(query, *old(ranking)),
        record_score as nat == score_of(query, record@),
    ensures
        scored(query, *final(ranking)),
        views(final(ranking).records@) == placed(query, views(old(ranking).records@), record@),
    decreases old(ranking).records@.len(),
{
    let count: usize = ranking.records.len();
    let ghost all = views(ranking.records@);
    assert(all.len() == count);
    if count == 0 {
        proof {
            lemma_views_push(ranking.records@, record);
        }
        ranking.records.push(record);
        ranking.scores.push(record_score);
        return;
    }
    assert(all.last() == ranking.records@[count - 1]@);
    assert(ranking.scores@[count - 1] as nat == score_of(query, all.last()));
    if !goes_before(
        &record,
        record_score,
        &ranking.records[count - 1],
        ranking.scores[count - 1],
    ) {
        proof {
            lemma_views_push(ranking.records@, record);
        }
        ranking.records.push(record);
        ranking.scores.push(record_score);
        return;
    }
    assert(views(ranking.records@.drop_last()) =~= all.drop_last());
    let last = ranking.records.pop();
    let last_score = ranking.scores.pop();
    place_record(ranking, record, record_score, Ghost(query));
    match (last, last_score) {
        (Some(moved), Some(moved_score)) => {
            proof {
                lemma_views_push(ranking.records@, moved);
            }
            ranking.records.push(moved);
            ranking.scores.push(moved_score);
        },
        _ => {},
    }
}

/// Recalls the best of the records for a query.
pub fn recall_from(records: &Vec<MemoryRecord>, query: &str, limit: usize) -> (found: Vec<
    MemoryRecord,
>)
    ensures
        views(found@) == recalled_of(query@, views(records@), limit as nat),
{
    let query_tokens = tokens(query);
    let ghost all = views(records@);
    let unfiltered: bool = query_tokens.len() == 0;
    proof {
        if unfiltered {
            assert(tokens_of(query@) =~= Set::<Seq<char>>::empty());
        } else {
            let key = query_tokens.keys()[0];
            assert(query_tokens.keys().to_set().contains(key));
            assert(tokens_of(query@).contains(key));
        }
    }
    let mut ranking = Ranking { records: Vec::new(), scores: Vec::new() };
    let mut index: usize = 0;
    assert(all.take(0) =~= Seq::empty());
    assert(views(ranking.records@) =~= Seq::empty());
    while index < records.len()
        invariant
            index <= records@.len(),
            all == views(records@),
            query_tokens@.dom() == tokens_of(query@),
            unfiltered == (tokens_of(query@) == Set::<Seq<char>>::empty()),
            scored(query@, ranking),
            views(ranking.records@) == ranked_of(query@, all.take(index as int)),
        decreases records@.len() - index,
    {
        proof {
            let grown = all.take(index as int + 1);
            assert(grown.drop_last() =~= all.take(index as int));
            assert(grown.last() == records@[index as int]@);
        }
        let points: u128 = score(query, &query_tokens, &records[index]);
        if points > 0 || unfiltered {
            let record = records[index].clone();
            place_record(&mut ranking, record, points, Ghost(query@));
        }
        index = index + 1;
    }
    assert(all.take(index as int) =~= all);
    let mut found = ranking.records;
    if found.len() > limit {
        proof {
            lemma_views_take(found@, limit as int);
            assert(found@.take(limit as int) =~= found@.subrange(0, limit as int));
        }
        found.truncate(limit);
    }
    found
}

// ---------------------------------------------------------------------------
// Stores
// ---------------------------------------------------------------------------

/// The identifiers of records.
pub open spec fn record_ids(records: Seq<MemoryRecordView>) -> Seq<Seq<char>> {
    records.map_values(|record: MemoryRecordView| record.id)
}

/// Whether a list holds exactly the records of a store, in ascending order of their
/// identifiers.
pub open spec fn lists_records(
    list: Seq<MemoryRecordView>,
    records: Map<Seq<char>, MemoryRecordView>,
) -> bool {
    &&& ascending(record_ids(list))
    &&& forall|i: int|
        0 <= i < list.len() ==> records.contains_key((#[trigger] list[i]).id)
            && records[list[i].id] == list[i]
    &&& forall|id: Seq<char>| #[trigger]
        records.contains_key(id) ==> record_ids(list).contains(id)
}

/// A record as it is kept when it is taken for updated at a time.
pub open spec fn updated(record: MemoryRecordView, at: u64) -> MemoryRecordView {
    MemoryRecordView { updated_at_unix_ms: at, ..record }
}

/// Where records are kept. Memory is advisory: nothing here touches tool policy.
pub trait MemoryStore: Sized {
    /// The records by their identifiers.
    spec fn records(&self) -> Map<Seq<char>, MemoryRecordView>;

    /// Whether another change can be recorded.
    spec fn writable(&self) -> bool;

    /// Adds a record, or replaces the one with its identifier. The store may take it for
    /// updated at a time of its own.
    fn upsert(&mut self, record: MemoryRecord) -> (done: Result<(), MemoryError>)
        requires
            old(self).writable(),
        ensures
            match done {
                Ok(()) => exists|at: u64|
                    final(self).records() == old(self).records().insert(
                        record@.id,
                        #[trigger] updated(record@, at),
                    ),
                Err(_) => final(self).records() == old(self).records(),
            },
    ;

    /// Removes a record, and says whether there was one.
    fn forget(&mut self, id: &str) -> (forgotten: Result<bool, MemoryError>)
        requires
            old(self).writable(),
        ensures
            match forgotten {
                Ok(found) => found == old(self).records().contains_key(id@) && final(self).records()
                    == old(self).records().remove(id@),
                Err(_) => final(self).records() == old(self).records(),
            },
    ;

    /// All records, in ascending order of their identifiers.
    fn list(&self) -> (listed: Result<Vec<MemoryRecord>, MemoryError>)
        ensures
            listed matches Ok(found) ==> lists_records(views(found@), self.records()),
    ;

    /// The best records for a query, at most `limit` of them. A store may rank them in its
    /// own way. By default the records that it lists are ranked by their words.
    fn recall(&self, query: &str, limit: usize) -> (recalled: Result<Vec<MemoryRecord>, MemoryError>)
        default_ensures
            match recalled {
                Ok(found) => best_memories(self.records(), query@, limit as nat, views(found@)),
                Err(error) => call_ensures(Self::list, (self,), Err(error)),
            },
    {
        match self.list() {
            Ok(records) => {
                assert(lists_records(views(records@), self.records()));
                Ok(recall_from(&records, query, limit))
            },
            Err(error) => Err(error),
        }
    }
}

/// Records of a map with the identifiers as keys.
spec fn keyed_by_id(records: Map<Seq<char>, MemoryRecord>) -> bool {
    forall|id: Seq<char>| #[trigger] records.contains_key(id) ==> records[id]@.id == id
}

fn list_values(records: &Keyed<MemoryRecord>) -> (list: Vec<MemoryRecord>)
    requires
        keyed_by_id(records@),
    ensures
        lists_records(views(list@), keyed_view(records@)),
{
    let count: usize = records.len();
    let ghost keys = records.keys();
    let ghost map = keyed_view(records@);
    let mut list: Vec<MemoryRecord> = Vec::new();
    let mut index: usize = 0;
    while index < count
        invariant
            index <= count,
            count == keys.len(),
            keys == records.keys(),
            map == keyed_view(records@),
            keyed_by_id(records@),
            list@.len() == index,
            forall|i: int|
                0 <= i < index ==> (#[trigger] views(list@)[i]).id == keys[i] && map.contains_key(
                    keys[i],
                ) && map[keys[i]] == views(list@)[i],
        decreases count - index,
    {
        let ghost before = list@;
        let record = records.value_at(index).clone();
        proof {
            lemma_views_push(before, record);
            assert(records@.contains_key(keys[index as int]));
        }
        list.push(record);
        proof {
            assert forall|i: int| 0 <= i < index + 1 implies (
            #[trigger] views(list@)[i]).id == keys[i] && map.contains_key(keys[i]) && map[keys[i]]
                == views(list@)[i] by {
                if i < index {
                    assert(views(list@)[i] == views(before)[i]);
                }
            }
        }
        index = index + 1;
    }
    proof {
        let found = views(list@);
        assert(record_ids(found) =~= keys) by {
            assert forall|i: int| 0 <= i < keys.len() implies record_ids(found)[i] == keys[i] by {
                assert(found[i].id == keys[i]);
            }
        }
        assert forall|id: Seq<char>| #[trigger] map.contains_key(id) implies record_ids(found).contains(
            id,
        ) by {
            assert(records@.dom().contains(id));
            assert(keys.to_set().contains(id));
        }
    }
    list
}

/// Records held in memory.
#[derive(Debug)]
pub struct InMemoryStore {
    records: Keyed<MemoryRecord>,
}

impl InMemoryStore {
    #[verifier::type_invariant]
    spec fn keyed(self) -> bool {
        keyed_by_id(self.records@)
    }

    pub fn new() -> (store: Self)
        ensures
            store.records() == Map::<Seq<char>, MemoryRecordView>::empty(),
    {
        let store = InMemoryStore { records: Keyed::new() };
        assert(store.records() =~= Map::<Seq<char>, MemoryRecordView>::empty());
        store
    }
}

impl MemoryStore for InMemoryStore {
    closed spec fn records(&self) -> Map<Seq<char>, MemoryRecordView> {
        keyed_view(self.records@)
    }

    open spec fn writable(&self) -> bool {
        true
    }

    /// Never fails, and keeps the record as it is.
    fn upsert(&mut self, record: MemoryRecord) -> (done: Result<(), MemoryError>)
        ensures
            done is Ok,
            final(self).records() == old(self).records().insert(record@.id, record@),
    {
        proof {
            use_type_invariant(&*self);
            assert(updated(record@, record@.updated_at_unix_ms) == record@);
        }
        let ghost before = self.records@;
        let mut records: Keyed<MemoryRecord> = Keyed::new();
        std::mem::swap(&mut records, &mut self.records);
        let id = record.id.clone();
        let _ = records.insert(id, record);
        assert(keyed_view(records@) =~= keyed_view(before).insert(record@.id, record@));
        self.records = records;
        Ok(())
    }

    /// Never fails.
    fn forget(&mut self, id: &str) -> (forgotten: Result<bool, MemoryError>)
        ensures
            forgotten is Ok,
    {
        proof {
            use_type_invariant(&*self);
        }
        let ghost before = self.records@;
        let mut records: Keyed<MemoryRecord> = Keyed::new();
        std::mem::swap(&mut records, &mut self.records);
        let removed = records.remove(id);
        assert(keyed_view(records@) =~= keyed_view(before).remove(id@));
        self.records = records;
        match removed {
            Some(_) => Ok(true),
            None => Ok(false),
        }
    }

    /// Never fails.
    fn list(&self) -> (listed: Result<Vec<MemoryRecord>, MemoryError>)
        ensures
            listed is Ok,
    {
        proof {
            use_type_invariant(self);
        }
        Ok(list_values(&self.records))
    }

    /// Never fails.
    fn recall(&self, query: &str, limit: usize) -> (recalled: Result<Vec<MemoryRecord>, MemoryError>)
        ensures
            recalled matches Ok(found) && best_memories(
                self.records(),
                query@,
                limit as nat,
                views(found@),
            ),
    {
        proof {
            use_type_invariant(self);
        }
        let all = list_values(&self.records);
        assert(lists_records(views(all@), self.records()));
        Ok(recall_from(&all, query, limit))
    }
}

// ---------------------------------------------------------------------------
// The journal of a store
// ---------------------------------------------------------------------------

/// A change of the records.
#[derive(Debug, PartialEq, Eq)]
pub enum MemoryEvent {
    Upsert { record: MemoryRecord },
    Forget { id: String },
}

/// The model of [`MemoryEvent`].
#[verifier::ext_equal]
pub ghost enum MemoryEventView {
    Upsert { record: MemoryRecordView },
    Forget { id: Seq<char> },
}

impl View for MemoryEvent {
    type V = MemoryEventView;

    open spec fn view(&self) -> MemoryEventView {
        match *self {
            MemoryEvent::Upsert { record } => MemoryEventView::Upsert { record: record@ },
            MemoryEvent::Forget { id } => MemoryEventView::Forget { id: id@ },
        }
    }
}

impl Datum for MemoryEvent {
    fn snapshot(&self) -> (copy: Self) {
        match self {
            MemoryEvent::Upsert { record } => MemoryEvent::Upsert { record: record.snapshot() },
            MemoryEvent::Forget { id } => MemoryEvent::Forget { id: id.snapshot() },
        }
    }

    fn same(&self, other: &Self) -> (equal: bool) {
        match (self, other) {
            (
                MemoryEvent::Upsert { record: record_a },
                MemoryEvent::Upsert { record: record_b },
            ) => record_a.same(record_b),
            (MemoryEvent::Forget { id: id_a }, MemoryEvent::Forget { id: id_b }) => id_a.same(id_b),
            _ => false,
        }
    }
}

impl Clone for MemoryEvent {
    fn clone(&self) -> (copy: Self)
        ensures
            copy@ == self@,
    {
        self.snapshot()
    }
}

/// A change as it is recorded.
#[derive(Debug, PartialEq, Eq)]
pub struct MemoryEnvelope {
    pub sequence: u64,
    pub at_unix_ms: u64,
    pub event: MemoryEvent,
}

/// The model of [`MemoryEnvelope`].
#[verifier::ext_equal]
pub ghost struct MemoryEnvelopeView {
    pub sequence: u64,
    pub at_unix_ms: u64,
    pub event: MemoryEventView,
}

impl View for MemoryEnvelope {
    type V = MemoryEnvelopeView;

    open spec fn view(&self) -> MemoryEnvelopeView {
        MemoryEnvelopeView {
            sequence: self.sequence,
            at_unix_ms: self.at_unix_ms,
            event: self.event@,
        }
    }
}

impl Datum for MemoryEnvelope {
    fn snapshot(&self) -> (copy: Self) {
        MemoryEnvelope {
            sequence: self.sequence,
            at_unix_ms: self.at_unix_ms,
            event: self.event.snapshot(),
        }
    }

    fn same(&self, other: &Self) -> (equal: bool) {
        self.sequence == other.sequence && self.at_unix_ms == other.at_unix_ms
            && self.event.same(&other.event)
    }
}

impl Clone for MemoryEnvelope {
    fn clone(&self) -> (copy: Self)
        ensures
            copy@ == self@,
    {
        self.snapshot()
    }
}

/// The records after a change.
pub open spec fn memory_applied(
    records: Map<Seq<char>, MemoryRecordView>,
    event: MemoryEventView,
) -> Map<Seq<char>, MemoryRecordView> {
    match event {
        MemoryEventView::Upsert { record } => records.insert(record.id, record),
        MemoryEventView::Forget { id } => records.remove(id),
    }
}

fn apply_event(records: &mut Keyed<MemoryRecord>, event: MemoryEvent)
    requires
        keyed_by_id(old(records)@),
    ensures
        keyed_by_id(final(records)@),
        keyed_view(final(records)@) == memory_applied(keyed_view(old(records)@), event@),
{
    let ghost before = records@;
    match event {
        MemoryEvent::Upsert { record } => {
            let id = record.id.clone();
            let _ = records.insert(id, record);
            assert(keyed_view(records@) =~= keyed_view(before).insert(record@.id, record@));
        },
        MemoryEvent::Forget { id } => {
            let _ = records.remove(id.as_str());
            assert(keyed_view(records@) =~= keyed_view(before).remove(id@));
        },
    }
}

/// What a line of the journal holds.
#[derive(Debug, PartialEq, Eq)]
pub enum MemoryLine {
    Blank,
    Record(MemoryEnvelope),
    Broken { message: String },
}

/// The model of [`MemoryLine`].
#[verifier::ext_equal]
pub ghost enum MemoryLineView {
    Blank,
    Record(MemoryEnvelopeView),
    Broken { message: Seq<char> },
}

impl View for MemoryLine {
    type V = MemoryLineView;

    open spec fn view(&self) -> MemoryLineView {
        match *self {
            MemoryLine::Blank => MemoryLineView::Blank,
            MemoryLine::Record(x0) => MemoryLineView::Record(x0@),
            MemoryLine::Broken { message } => MemoryLineView::Broken { message: message@ },
        }
    }
}

impl Datum for MemoryLine {
    fn snapshot(&self) -> (copy: Self) {
        match self {
            MemoryLine::Blank => MemoryLine::Blank,
            MemoryLine::Record(x0) => MemoryLine::Record(x0.snapshot()),
            MemoryLine::Broken { message } => MemoryLine::Broken { message: message.snapshot() },
        }
    }

    fn same(&self, other: &Self) -> (equal: bool) {
        match (self, other) {
            (MemoryLine::Blank, MemoryLine::Blank) => true,
            (MemoryLine::Record(x0), MemoryLine::Record(y0)) => x0.same(y0),
            (
                MemoryLine::Broken { message: message_a },
                MemoryLine::Broken { message: message_b },
            ) => message_a.same(message_b),
            _ => false,
        }
    }
}

impl Clone for MemoryLine {
    fn clone(&self) -> (copy: Self)
        ensures
            copy@ == self@,
    {
        self.snapshot()
    }
}

/// What a line of the journal holds, with what its text decodes to. A blank line holds nothing,
/// whatever becomes of decoding it.
pub open spec fn memory_line_of(
    text: Seq<char>,
    decoded: Result<MemoryEnvelopeView, Seq<char>>,
) -> MemoryLineView {
    if blank(text) {
        MemoryLineView::Blank
    } else {
        match decoded {
            Ok(record) => MemoryLineView::Record(record),
            Err(message) => MemoryLineView::Broken { message },
        }
    }
}

impl MemoryLine {
    /// Reads a line. The host decodes its text.
    pub fn read(text: &str, decoded: Result<MemoryEnvelope, String>) -> (line: Self)
        ensures
            line@ == memory_line_of(text@, res_view(decoded)),
    {
        if is_blank(text) {
            return MemoryLine::Blank;
        }
        match decoded {
            Ok(record) => MemoryLine::Record(record),
            Err(message) => MemoryLine::Broken { message },
        }
    }
}

/// The state of a journal.
#[verifier::ext_equal]
pub ghost struct MemoryJournalView {
    pub records: Map<Seq<char>, MemoryRecordView>,
    pub next: nat,
}

/// The state after the lines of a journal from `at` on. Blank lines are skipped, and a
/// line that is no record makes the journal corrupt.
pub open spec fn replayed_from(
    lines: Seq<MemoryLineView>,
    at: int,
    state: MemoryJournalView,
) -> Result<MemoryJournalView, MemoryErrorView>
    decreases lines.len() - at,
{
    if at < 0 || at >= lines.len() {
        Ok(state)
    } else {
        match lines[at] {
            MemoryLineView::Blank => replayed_from(lines, at + 1, state),
            MemoryLineView::Broken { message } => Err(
                MemoryErrorView::Corrupt { line: (at + 1) as usize, message },
            ),
            MemoryLineView::Record(envelope) => replayed_from(
                lines,
                at + 1,
                MemoryJournalView {
                    records: memory_applied(state.records, envelope.event),
                    next: if envelope.sequence + 1 > state.next {
                        (envelope.sequence + 1) as nat
                    } else {
                        state.next
                    },
                },
            ),
        }
    }
}

/// A journal without lines.
pub open spec fn empty_journal() -> MemoryJournalView {
    MemoryJournalView { records: Map::empty(), next: 0 }
}

/// The record of a change.
pub open spec fn memory_envelope(
    journal: MemoryJournalView,
    event: MemoryEventView,
    at: u64,
) -> MemoryEnvelopeView {
    MemoryEnvelopeView { sequence: journal.next as u64, at_unix_ms: at, event }
}

/// A journal after a record, and the answer. A change counts once its record was written,
/// and only then.
pub open spec fn memory_settled(
    journal: MemoryJournalView,
    event: MemoryEventView,
    outcome: WriteOutcome,
) -> (MemoryJournalView, Result<(), MemoryErrorView>) {
    match outcome {
        WriteOutcome::Durable => (
            MemoryJournalView {
                records: memory_applied(journal.records, event),
                next: journal.next + 1,
            },
            Ok(()),
        ),
        WriteOutcome::NotEncoded(message) => (
            journal,
            Err(MemoryErrorView::Serialization(message@)),
        ),
        WriteOutcome::Failed(message) => (journal, Err(MemoryErrorView::Io(message@))),
    }
}

/// Whether a writer may have answered so to a record.
pub open spec fn memory_wrote<W: Fn(MemoryEnvelope) -> WriteOutcome>(
    write: W,
    envelope: MemoryEnvelopeView,
    outcome: WriteOutcome,
) -> bool {
    exists|record: MemoryEnvelope|
        record@ == envelope && #[trigger] call_ensures(write, (record,), outcome)
}

/// Whether a change went this way: its record was written, and the writer answered.
pub open spec fn memory_appends<W: Fn(MemoryEnvelope) -> WriteOutcome>(
    write: W,
    before: MemoryJournalView,
    event: MemoryEventView,
    at: u64,
    after: MemoryJournalView,
    done: Result<(), MemoryErrorView>,
) -> bool {
    exists|outcome: WriteOutcome| #[trigger]
        memory_wrote(write, memory_envelope(before, event, at), outcome) && (after, done)
            == memory_settled(before, event, outcome)
}

/// The view of the answer to a removal.
pub open spec fn found_view(found: Result<bool, MemoryError>) -> Result<bool, MemoryErrorView> {
    match found {
        Ok(yes) => Ok(yes),
        Err(error) => Err(error@),
    }
}

/// Whether a record was removed this way. Nothing is written where there is no such record.
pub open spec fn memory_forgets<W: Fn(MemoryEnvelope) -> WriteOutcome>(
    write: W,
    before: MemoryJournalView,
    id: Seq<char>,
    at: u64,
    after: MemoryJournalView,
    found: Result<bool, MemoryErrorView>,
) -> bool {
    if !before.records.contains_key(id) {
        after == before && found == Ok::<bool, MemoryErrorView>(false)
    } else {
        exists|done: Result<(), MemoryErrorView>| #[trigger]
            memory_appends(write, before, MemoryEventView::Forget { id }, at, after, done)
                && found == (match done {
                Ok(()) => Ok(true),
                Err(error) => Err::<bool, MemoryErrorView>(error),
            })
    }
}

/// Records with a journal file. The host reads and writes the file.
#[derive(Debug)]
pub struct JsonlMemoryStore {
    path: String,
    next_sequence: u64,
    records: Keyed<MemoryRecord>,
}

impl View for JsonlMemoryStore {
    type V = MemoryJournalView;

    closed spec fn view(&self) -> MemoryJournalView {
        MemoryJournalView { records: keyed_view(self.records@), next: self.next_sequence as nat }
    }
}

impl JsonlMemoryStore {
    #[verifier::type_invariant]
    spec fn keyed(self) -> bool {
        keyed_by_id(self.records@)
    }

    /// The file of the journal.
    pub closed spec fn file(&self) -> Seq<char> {
        self.path@
    }

    /// Opens a store over the lines of its journal.
    pub fn open(path: String, lines: &Vec<MemoryLine>) -> (store: Result<Self, MemoryError>)
        requires
            lines@.len() < usize::MAX,
            forall|i: int|
                0 <= i < lines@.len() ==> ((#[trigger] lines@[i])@ matches MemoryLineView::Record(
                    envelope,
                ) ==> envelope.sequence < u64::MAX),
        ensures
            match store {
                Ok(found) => replayed_from(views(lines@), 0, empty_journal()) == Ok::<
                    MemoryJournalView,
                    MemoryErrorView,
                >(found@) && found.file() == path@,
                Err(error) => replayed_from(views(lines@), 0, empty_journal()) == Err::<
                    MemoryJournalView,
                    MemoryErrorView,
                >(error@),
            },
    {
        let ghost all = views(lines@);
        let mut records: Keyed<MemoryRecord> = Keyed::new();
        let mut next_sequence: u64 = 0;
        let mut at: usize = 0;
        assert(all.len() == lines@.len());
        assert((MemoryJournalView { records: keyed_view(records@), next: 0 }) =~= empty_journal());
        while at < lines.len()
            invariant
                at <= lines@.len(),
                lines@.len() < usize::MAX,
                all == views(lines@),
                all.len() == lines@.len(),
                keyed_by_id(records@),
                forall|i: int|
                    0 <= i < lines@.len() ==> (
                    (#[trigger] lines@[i])@ matches MemoryLineView::Record(envelope)
                        ==> envelope.sequence < u64::MAX),
                replayed_from(all, 0, empty_journal()) == replayed_from(
                    all,
                    at as int,
                    (MemoryJournalView {
                        records: keyed_view(records@),
                        next: next_sequence as nat,
                    }),
                ),
            decreases lines@.len() - at,
        {
            assert(all[at as int] == lines@[at as int]@);
            match &lines[at] {
                MemoryLine::Blank => {},
                MemoryLine::Broken { message } => {
                    return Err(MemoryError::Corrupt { line: at + 1, message: message.clone() });
                },
                MemoryLine::Record(envelope) => {
                    if envelope.sequence + 1 > next_sequence {
                        next_sequence = envelope.sequence + 1;
                    }
                    let event = envelope.event.clone();
                    apply_event(&mut records, event);
                },
            }
            at = at + 1;
        }
        Ok(JsonlMemoryStore { path, next_sequence, records })
    }

    pub fn path(&self) -> (path: &str)
        ensures
            path@ == self.file(),
    {
        self.path.as_str()
    }

    /// Takes a change once its record was written, and only then.
    fn settle(&mut self, event: MemoryEvent, outcome: WriteOutcome) -> (done: Result<
        (),
        MemoryError,
    >)
        requires
            old(self)@.next < u64::MAX,
        ensures
            final(self).file() == old(self).file(),
            (final(self)@, done_view(done)) == memory_settled(old(self)@, event@, outcome),
    {
        match outcome {
            WriteOutcome::NotEncoded(message) => Err(MemoryError::Serialization(message)),
            WriteOutcome::Failed(message) => Err(MemoryError::Io(message)),
            WriteOutcome::Durable => {
                proof {
                    use_type_invariant(&*self);
                }
                let mut records: Keyed<MemoryRecord> = Keyed::new();
                std::mem::swap(&mut records, &mut self.records);
                apply_event(&mut records, event);
                let next: u64 = self.next_sequence + 1;
                self.records = records;
                self.next_sequence = next;
                Ok(())
            },
        }
    }

    fn append<W: Fn(MemoryEnvelope) -> WriteOutcome>(
        &mut self,
        event: MemoryEvent,
        at: u64,
        write: &W,
    ) -> (done: Result<(), MemoryError>)
        requires
            forall|envelope: MemoryEnvelope| call_requires(*write, (envelope,)),
            old(self)@.next < u64::MAX,
        ensures
            final(self).file() == old(self).file(),
            memory_appends(*write, old(self)@, event@, at, final(self)@, done_view(done)),
    {
        let envelope = MemoryEnvelope {
            sequence: self.next_sequence,
            at_unix_ms: at,
            event: event.clone(),
        };
        let ghost view = envelope@;
        let outcome = write(envelope);
        assert(memory_wrote(*write, view, outcome));
        assert(view == memory_envelope(old(self)@, event@, at));
        let done = self.settle(event, outcome);
        assert((self@, done_view(done)) == memory_settled(old(self)@, event@, outcome));
        done
    }

    /// Adds or replaces a record, which is taken for updated `now`. The change is recorded
    /// at the time `at`.
    pub fn upsert<W: Fn(MemoryEnvelope) -> WriteOutcome>(
        &mut self,
        record: MemoryRecord,
        now: u64,
        at: u64,
        write: &W,
    ) -> (done: Result<(), MemoryError>)
        requires
            forall|envelope: MemoryEnvelope| call_requires(*write, (envelope,)),
            old(self)@.next < u64::MAX,
        ensures
            final(self).file() == old(self).file(),
            memory_appends(
                *write,
                old(self)@,
                (MemoryEventView::Upsert {
                    record: MemoryRecordView { updated_at_unix_ms: now, ..record@ },
                }),
                at,
                final(self)@,
                done_view(done),
            ),
    {
        let event = MemoryEvent::Upsert {
            record: MemoryRecord { updated_at_unix_ms: now, ..record },
        };
        self.append(event, at, write)
    }

    /// Removes a record. The answer is whether there was one.
    pub fn forget<W: Fn(MemoryEnvelope) -> WriteOutcome>(
        &mut self,
        id: &str,
        at: u64,
        write: &W,
    ) -> (found: Result<bool, MemoryError>)
        requires
            forall|envelope: MemoryEnvelope| call_requires(*write, (envelope,)),
            old(self)@.next < u64::MAX,
        ensures
            final(self).file() == old(self).file(),
            memory_forgets(
                *write,
                old(self)@,
                id@,
                at,
                final(self)@,
                found_view(found),
            ),
    {
        if !self.records.contains(id) {
            return Ok(false);
        }
        let done = self.append(MemoryEvent::Forget { id: id.to_owned() }, at, write);
        assert(memory_appends(
            *write,
            old(self)@,
            MemoryEventView::Forget { id: id@ },
            at,
            self@,
            done_view(done),
        ));
        match done {
            Ok(()) => Ok(true),
            Err(error) => Err(error),
        }
    }

    /// All records, in ascending order of their identifiers.
    pub fn list(&self) -> (list: Vec<MemoryRecord>)
        ensures
            lists_records(views(list@), self@.records),
    {
        proof {
            use_type_invariant(self);
        }
        list_values(&self.records)
    }

    /// The best records for a query, at most `limit` of them.
    pub fn recall(&self, query: &str, limit: usize) -> (found: Vec<MemoryRecord>)
        ensures
            exists|all: Seq<MemoryRecordView>| #[trigger]
                lists_records(all, self@.records) && views(found@) == recalled_of(
                    query@,
                    all,
                    limit as nat,
                ),
    {
        let all = self.list();
        assert(lists_records(views(all@), self@.records));
        recall_from(&all, query, limit)
    }
}

/// A store with a journal file, together with what writes the file and tells the time.
pub struct MemoryJournal<W: Fn(MemoryEnvelope) -> WriteOutcome, C: Fn() -> u64> {
    pub store: JsonlMemoryStore,
    pub write: W,
    pub clock: C,
}

impl<W: Fn(MemoryEnvelope) -> WriteOutcome, C: Fn() -> u64> MemoryStore for MemoryJournal<W, C> {
    open spec fn records(&self) -> Map<Seq<char>, MemoryRecordView> {
        self.store@.records
    }

    open spec fn writable(&self) -> bool {
        &&& forall|envelope: MemoryEnvelope| call_requires(self.write, (envelope,))
        &&& call_requires(self.clock, ())
        &&& self.store@.next < u64::MAX
    }

    /// The record is taken for updated now.
    fn upsert(&mut self, record: MemoryRecord) -> (done: Result<(), MemoryError>)
        ensures
            final(self).write == old(self).write,
            final(self).clock == old(self).clock,
            exists|now: u64, at: u64|
                call_ensures(old(self).clock, (), now) && call_ensures(old(self).clock, (), at)
                    && #[trigger] memory_appends(
                    old(self).write,
                    old(self).store@,
                    (MemoryEventView::Upsert { record: updated(record@, now) }),
                    at,
                    final(self).store@,
                    done_view(done),
                ),
    {
        let ghost view = record@;
        let now: u64 = (self.clock)();
        let at: u64 = (self.clock)();
        let done = self.store.upsert(record, now, at, &self.write);
        assert(updated(view, now) == MemoryRecordView { updated_at_unix_ms: now, ..view });
        assert(memory_appends(
            old(self).write,
            old(self).store@,
            (MemoryEventView::Upsert { record: updated(view, now) }),
            at,
            self.store@,
            done_view(done),
        ));
        done
    }

    fn forget(&mut self, id: &str) -> (forgotten: Result<bool, MemoryError>)
        ensures
            final(self).write == old(self).write,
            final(self).clock == old(self).clock,
            exists|at: u64|
                call_ensures(old(self).clock, (), at) && #[trigger] memory_forgets(
                    old(self).write,
                    old(self).store@,
                    id@,
                    at,
                    final(self).store@,
                    found_view(forgotten),
                ),
    {
        let at: u64 = (self.clock)();
        let forgotten = self.store.forget(id, at, &self.write);
        assert(self.records() =~= old(self).records().remove(id@) || forgotten is Err);
        forgotten
    }

    /// Never fails.
    fn list(&self) -> (listed: Result<Vec<MemoryRecord>, MemoryError>)
        ensures
            listed is Ok,
    {
        Ok(self.store.list())
    }

    /// Never fails.
    fn recall(&self, query: &str, limit: usize) -> (recalled: Result<Vec<MemoryRecord>, MemoryError>)
        ensures
            recalled matches Ok(found) && best_memories(
                self.records(),
                query@,
                limit as nat,
                views(found@),
            ),
    {
        let all = self.store.list();
        assert(lists_records(views(all@), self.records()));
        Ok(recall_from(&all, query, limit))
    }
}

/// Replaying a journal gives the records that it was written for: a further line changes
/// the state as the change did when it was made.
pub proof fn law_replay_follows_the_journal(
    lines: Seq<MemoryLineView>,
    envelope: MemoryEnvelopeView,
    at: int,
    state: MemoryJournalView,
)
    requires
        0 <= at <= lines.len(),
        replayed_from(lines, at, state) is Ok,
        envelope.sequence as nat == replayed_from(lines, at, state)->Ok_0.next,
    ensures
        replayed_from(lines.push(MemoryLineView::Record(envelope)), at, state) == Ok::<
            MemoryJournalView,
            MemoryErrorView,
        >(
            MemoryJournalView {
                records: memory_applied(
                    replayed_from(lines, at, state)->Ok_0.records,
                    envelope.event,
                ),
                next: replayed_from(lines, at, state)->Ok_0.next + 1,
            },
        ),
    decreases lines.len() - at,
{
    let longer = lines.push(MemoryLineView::Record(envelope));
    if at == lines.len() {
        assert(longer[at] == MemoryLineView::Record(envelope));
        assert(replayed_from(lines, at, state) == Ok::<MemoryJournalView, MemoryErrorView>(state));
        let last = MemoryJournalView {
            records: memory_applied(state.records, envelope.event),
            next: state.next + 1,
        };
        assert(replayed_from(longer, at + 1, last) == Ok::<MemoryJournalView, MemoryErrorView>(last));
    } else {
        assert(longer[at] == lines[at]);
        match lines[at] {
            MemoryLineView::Blank => {
                law_replay_follows_the_journal(lines, envelope, at + 1, state);
            },
            MemoryLineView::Broken { .. } => {},
            MemoryLineView::Record(earlier) => {
                law_replay_follows_the_journal(
                    lines,
                    envelope,
                    at + 1,
                    MemoryJournalView {
                        records: memory_applied(state.records, earlier.event),
                        next: if earlier.sequence + 1 > state.next {
                            (earlier.sequence + 1) as nat
                        } else {
                            state.next
                        },
                    },
                );
            },
        }
    }
}

// ---------------------------------------------------------------------------
// Memory in the context
// ---------------------------------------------------------------------------

/// What was recalled for a turn.
#[derive(Debug)]
struct Snapshot {
    thread_id: ThreadId,
    turn_id: TurnId,
    memories: Vec<MemoryRecord>,
}

/// What was recalled for a turn.
#[verifier::ext_equal]
pub ghost struct SnapshotView {
    pub thread_id: Seq<char>,
    pub turn_id: Seq<char>,
    pub memories: Seq<MemoryRecordView>,
}

impl View for Snapshot {
    type V = SnapshotView;

    closed spec fn view(&self) -> SnapshotView {
        SnapshotView {
            thread_id: self.thread_id@,
            turn_id: self.turn_id@,
            memories: views(self.memories@),
        }
    }
}

/// What was recalled for a turn, if it still is known, from snapshot `at` on.
pub open spec fn frozen_from(
    snapshots: Seq<SnapshotView>,
    thread_id: Seq<char>,
    turn_id: Seq<char>,
    at: int,
) -> Option<Seq<MemoryRecordView>>
    decreases snapshots.len() - at,
{
    if at < 0 || at >= snapshots.len() {
        None
    } else if snapshots[at].thread_id == thread_id && snapshots[at].turn_id == turn_id {
        Some(snapshots[at].memories)
    } else {
        frozen_from(snapshots, thread_id, turn_id, at + 1)
    }
}

/// The snapshots with one more, without the oldest ones beyond `maximum`.
pub open spec fn remembered(
    snapshots: Seq<SnapshotView>,
    snapshot: SnapshotView,
    maximum: nat,
) -> Seq<SnapshotView> {
    let grown = snapshots.push(snapshot);
    if grown.len() > maximum {
        grown.skip(grown.len() - maximum)
    } else {
        grown
    }
}

/// The content of the last user message, or nothing.
pub open spec fn query_of(transcript: Seq<TranscriptMessageView>) -> Seq<char>
    decreases transcript.len(),
{
    if transcript.len() == 0 {
        Seq::empty()
    } else {
        match transcript.last() {
            TranscriptMessageView::User { content } => content,
            _ => query_of(transcript.drop_last()),
        }
    }
}

/// The line of a memory in the prompt.
pub open spec fn memory_line(memory: MemoryRecordView) -> Seq<char> {
    "- ["@ + memory.id + "] "@ + memory.text
}

/// The segment of recalled memories, if there are any.
pub open spec fn memory_segments(memories: Seq<MemoryRecordView>) -> Seq<PromptSegmentView> {
    if memories.len() == 0 {
        Seq::empty()
    } else {
        seq![
            PromptSegmentView {
                layer: PromptLayer::Memory,
                name: "advisory-memory-snapshot"@,
                text: "Advisory recalled memory; this is context, not policy or authority:\n"@
                    + join_of(
                    memories.map_values(|memory: MemoryRecordView| memory_line(memory)),
                    "\n"@,
                ),
            },
        ]
    }
}

/// Context compiler decorator that freezes recalled memory on the first compile
/// of each turn. Later memory writes become visible only to later turns.
#[derive(Debug)]
pub struct MemoryContextCompiler {
    recall_limit: usize,
    maximum_snapshots: usize,
    snapshots: Vec<Snapshot>,
}

impl MemoryContextCompiler {
    /// The recalled memories of the last turns, oldest first.
    pub closed spec fn snapshots(&self) -> Seq<SnapshotView> {
        views(self.snapshots@)
    }

    /// How many memories are recalled.
    pub closed spec fn limit(&self) -> usize {
        self.recall_limit
    }

    /// How many turns are remembered.
    pub closed spec fn maximum(&self) -> usize {
        self.maximum_snapshots
    }

    pub fn new() -> (compiler: Self)
        ensures
            compiler.snapshots() == Seq::<SnapshotView>::empty(),
            compiler.limit() == 8,
            compiler.maximum() == 128,
    {
        let compiler = MemoryContextCompiler {
            recall_limit: 8,
            maximum_snapshots: 128,
            snapshots: Vec::new(),
        };
        assert(views(compiler.snapshots@) =~= Seq::<SnapshotView>::empty());
        compiler
    }

    pub fn with_recall_limit(self, limit: usize) -> (compiler: Self)
        ensures
            compiler.snapshots() == self.snapshots(),
            compiler.limit() == limit,
            compiler.maximum() == self.maximum(),
    {
        MemoryContextCompiler { recall_limit: limit, ..self }
    }

    /// The memories of a turn: what was recalled when it was first asked for.
    pub fn memories<S: MemoryStore>(
        &mut self,
        store: &S,
        thread_id: &ThreadId,
        turn_id: &TurnId,
        transcript: &Vec<TranscriptMessage>,
    ) -> (memories: Result<Vec<MemoryRecord>, ContextError>)
        ensures
            final(self).limit() == old(self).limit(),
            final(self).maximum() == old(self).maximum(),
            recalls(
                *store,
                old(self).limit(),
                old(self).maximum() as nat,
                thread_id@,
                turn_id@,
                query_of(views(transcript@)),
                old(self).snapshots(),
                final(self).snapshots(),
                list_result(memories),
            ),
    {
        let ghost all = views(self.snapshots@);
        assert(all.len() == self.snapshots@.len());
        let mut at: usize = 0;
        while at < self.snapshots.len()
            invariant
                at <= self.snapshots@.len(),
                self.recall_limit == old(self).recall_limit,
                self.maximum_snapshots == old(self).maximum_snapshots,
                self.snapshots == old(self).snapshots,
                all == views(self.snapshots@),
                all.len() == self.snapshots@.len(),
                frozen_from(all, thread_id@, turn_id@, 0) == frozen_from(
                    all,
                    thread_id@,
                    turn_id@,
                    at as int,
                ),
            decreases self.snapshots@.len() - at,
        {
            assert(all[at as int] == self.snapshots@[at as int]@);
            if self.snapshots[at].thread_id.same(thread_id) && self.snapshots[at].turn_id.same(
                turn_id,
            ) {
                return Ok(snapshot_all(&self.snapshots[at].memories));
            }
            at = at + 1;
        }
        let query = last_user_message(transcript);
        let text = query.as_str();
        let answer = store.recall(text, self.recall_limit);
        proof {
            assert(call_ensures(S::recall, (store, text, self.recall_limit), answer));
        }
        self.freeze(thread_id, turn_id, answer)
    }

    /// Takes what a store recalled for a turn: the memories are frozen for the turn, and the
    /// oldest turns beyond those that are remembered are dropped. A failure changes nothing.
    pub fn freeze(
        &mut self,
        thread_id: &ThreadId,
        turn_id: &TurnId,
        answer: Result<Vec<MemoryRecord>, MemoryError>,
    ) -> (memories: Result<Vec<MemoryRecord>, ContextError>)
        ensures
            final(self).limit() == old(self).limit(),
            final(self).maximum() == old(self).maximum(),
            list_result(memories) == answered(answer),
            final(self).snapshots() == (match answer {
                Ok(recalled) => remembered(
                    old(self).snapshots(),
                    SnapshotView {
                        thread_id: thread_id@,
                        turn_id: turn_id@,
                        memories: views(recalled@),
                    },
                    old(self).maximum() as nat,
                ),
                Err(_) => old(self).snapshots(),
            }),
    {
        let ghost all = views(self.snapshots@);
        let recalled = match answer {
            Ok(recalled) => recalled,
            Err(error) => {
                return Err(ContextError::Read(error.to_text()));
            },
        };
        let snapshot = Snapshot {
            thread_id: thread_id.clone(),
            turn_id: turn_id.clone(),
            memories: snapshot_all(&recalled),
        };
        proof {
            lemma_views_push(self.snapshots@, snapshot);
        }
        self.snapshots.push(snapshot);
        let ghost grown = all.push(snapshot@);
        assert(grown.skip(0) =~= grown);
        let ghost mut dropped: int = 0;
        while self.snapshots.len() > self.maximum_snapshots
            invariant
                self.recall_limit == old(self).recall_limit,
                self.maximum_snapshots == old(self).maximum_snapshots,
                0 <= dropped <= grown.len(),
                self.snapshots@.len() == grown.len() - dropped,
                dropped > 0 ==> self.snapshots@.len() >= self.maximum_snapshots,
                views(self.snapshots@) == grown.skip(dropped),
            decreases self.snapshots@.len(),
        {
            let ghost before = self.snapshots@;
            let _ = self.snapshots.remove(0);
            proof {
                assert(views(self.snapshots@) =~= views(before).skip(1));
                assert(grown.skip(dropped).skip(1) =~= grown.skip(dropped + 1));
                dropped = dropped + 1;
            }
        }
        Ok(recalled)
    }

    /// The context with the memories of its turn behind the rest of the prompt.
    pub fn decorate(&self, compiled: CompiledContext, memories: &Vec<MemoryRecord>) -> (decorated:
        CompiledContext)
        ensures
            decorated@ == (CompiledContextView {
                prompt: compiled@.prompt + memory_segments(views(memories@)),
                messages: compiled@.messages,
            }),
    {
        let ghost prompt = compiled@.prompt;
        let ghost all = views(memories@);
        assert(all.len() == memories@.len());
        if memories.len() == 0 {
            assert(prompt + memory_segments(all) =~= prompt);
            return compiled;
        }
        let ghost wanted = all.map_values(|memory: MemoryRecordView| memory_line(memory));
        let mut found: Vec<String> = Vec::new();
        let mut index: usize = 0;
        assert(views(found@) =~= wanted.take(0));
        while index < memories.len()
            invariant
                index <= memories@.len(),
                all == views(memories@),
                wanted == all.map_values(|memory: MemoryRecordView| memory_line(memory)),
                views(found@) == wanted.take(index as int),
            decreases memories@.len() - index,
        {
            let line = "- [".to_owned().concat(memories[index].id.as_str()).concat("] ").concat(
                memories[index].text.as_str(),
            );
            proof {
                lemma_views_push(found@, line);
                assert(wanted.take(index as int + 1) =~= wanted.take(index as int).push(line@));
            }
            found.push(line);
            index = index + 1;
        }
        assert(wanted.take(index as int) =~= wanted);
        let segment = PromptSegment::new(
            PromptLayer::Memory,
            "advisory-memory-snapshot".to_owned(),
            "Advisory recalled memory; this is context, not policy or authority:\n".to_owned().concat(
                join(&found, "\n").as_str(),
            ),
        );
        let mut segments = compiled.prompt;
        proof {
            lemma_views_push(segments@, segment);
            assert(prompt.push(segment@) =~= prompt + memory_segments(all));
        }
        segments.push(segment);
        CompiledContext { prompt: segments, messages: compiled.messages }
    }

    /// Compiles a context through an inner compiler, with the memories of the turn.
    pub fn compile<S: MemoryStore, C: ContextCompiler>(
        &mut self,
        inner: &C,
        store: &S,
        input: ContextInput,
    ) -> (compiled: Result<CompiledContext, ContextError>)
        ensures
            final(self).limit() == old(self).limit(),
            final(self).maximum() == old(self).maximum(),
            exists|memories: Result<Seq<MemoryRecordView>, ContextErrorView>| #[trigger]
                recalls(
                    *store,
                    old(self).limit(),
                    old(self).maximum() as nat,
                    input@.thread_id,
                    input@.turn_id,
                    query_of(input@.transcript),
                    old(self).snapshots(),
                    final(self).snapshots(),
                    memories,
                ) && match memories {
                    Err(error) => compiled matches Err(found) && found@ == error,
                    Ok(memories) => decorates(*inner, input, memories, compiled),
                },
    {
        let memories = self.memories(
            store,
            &input.thread_id,
            &input.turn_id,
            &input.transcript,
        );
        assert(recalls(
            *store,
            old(self).limit(),
            old(self).maximum() as nat,
            input@.thread_id,
            input@.turn_id,
            query_of(input@.transcript),
            old(self).snapshots(),
            self.snapshots(),
            list_result(memories),
        ));
        let memories = match memories {
            Ok(memories) => memories,
            Err(error) => {
                return Err(error);
            },
        };
        let made = inner.compile(input);
        assert(call_ensures(C::compile, (inner, input), made));
        let compiled = match made {
            Ok(context) => Ok(self.decorate(context, &memories)),
            Err(error) => Err(error),
        };
        assert(decorates(*inner, input, views(memories@), compiled));
        compiled
    }
}

/// The model of a list of memories, or why there is none.
pub open spec fn list_result(memories: Result<Vec<MemoryRecord>, ContextError>) -> Result<
    Seq<MemoryRecordView>,
    ContextErrorView,
> {
    match memories {
        Ok(found) => Ok(views(found@)),
        Err(error) => Err(error@),
    }
}

/// Whether these are the best memories of a store.
pub open spec fn best_memories(
    records: Map<Seq<char>, MemoryRecordView>,
    query: Seq<char>,
    limit: nat,
    memories: Seq<MemoryRecordView>,
) -> bool {
    exists|all: Seq<MemoryRecordView>| #[trigger]
        lists_records(all, records) && memories == recalled_of(query, all, limit)
}

/// What a store's answer comes to for a context.
pub open spec fn answered(answer: Result<Vec<MemoryRecord>, MemoryError>) -> Result<
    Seq<MemoryRecordView>,
    ContextErrorView,
> {
    match answer {
        Ok(found) => Ok(views(found@)),
        Err(error) => Err(ContextErrorView::Read(memory_error_text(error@))),
    }
}

/// Whether a store was asked for this query, and answered so.
pub open spec fn asked<S: MemoryStore>(
    store: S,
    query: Seq<char>,
    limit: usize,
    memories: Result<Seq<MemoryRecordView>, ContextErrorView>,
) -> bool {
    exists|text: &str, answer: Result<Vec<MemoryRecord>, MemoryError>|
        text@ == query && #[trigger] call_ensures(S::recall, (&store, text, limit), answer)
            && memories == answered(answer)
}

/// Whether the memories of a turn were brought this way: those that were recalled for it
/// before, or else what the store answered when it was asked, which is frozen for the turn.
/// A store that fails changes nothing.
pub open spec fn recalls<S: MemoryStore>(
    store: S,
    limit: usize,
    maximum: nat,
    thread_id: Seq<char>,
    turn_id: Seq<char>,
    query: Seq<char>,
    before: Seq<SnapshotView>,
    after: Seq<SnapshotView>,
    memories: Result<Seq<MemoryRecordView>, ContextErrorView>,
) -> bool {
    match frozen_from(before, thread_id, turn_id, 0) {
        Some(frozen) => memories == Ok::<Seq<MemoryRecordView>, ContextErrorView>(frozen) && after
            == before,
        None => asked(store, query, limit, memories) && match memories {
            Ok(found) => after == remembered(
                before,
                SnapshotView { thread_id, turn_id, memories: found },
                maximum,
            ),
            Err(_) => after == before,
        },
    }
}

/// Whether a context was compiled this way: the inner compiler made it, and the memories
/// stand behind the rest of the prompt.
pub open spec fn decorates<C: ContextCompiler>(
    inner: C,
    input: ContextInput,
    memories: Seq<MemoryRecordView>,
    compiled: Result<CompiledContext, ContextError>,
) -> bool {
    exists|made: Result<CompiledContext, ContextError>| #[trigger]
        call_ensures(C::compile, (&inner, input), made) && match made {
            Ok(context) => compiled matches Ok(found) && found@ == (CompiledContextView {
                prompt: context@.prompt + memory_segments(memories),
                messages: context@.messages,
            }),
            Err(error) => compiled == Err::<CompiledContext, ContextError>(error),
        }
}

pub(crate) fn last_user_message(transcript: &Vec<TranscriptMessage>) -> (content: String)
    ensures
        content@ == query_of(views(transcript@)),
{
    let ghost all = views(transcript@);
    let mut count: usize = transcript.len();
    assert(all.take(count as int) =~= all);
    while count > 0
        invariant
            count <= transcript@.len(),
            all == views(transcript@),
            query_of(all) == query_of(all.take(count as int)),
        decreases count,
    {
        proof {
            assert(all.take(count as int).last() == transcript@[count - 1]@);
            assert(all.take(count as int).drop_last() =~= all.take(count - 1));
        }
        match &transcript[count - 1] {
            TranscriptMessage::User { content } => {
                return content.clone();
            },
            _ => {},
        }
        count = count - 1;
    }
    String::new()
}

proof fn lemma_frozen_push(
    snapshots: Seq<SnapshotView>,
    snapshot: SnapshotView,
    thread_id: Seq<char>,
    turn_id: Seq<char>,
    at: int,
)
    requires
        0 <= at <= snapshots.len(),
    ensures
        frozen_from(snapshots.push(snapshot), thread_id, turn_id, at) == (match frozen_from(
            snapshots,
            thread_id,
            turn_id,
            at,
        ) {
            Some(frozen) => Some(frozen),
            None => if snapshot.thread_id == thread_id && snapshot.turn_id == turn_id {
                Some(snapshot.memories)
            } else {
                None
            },
        }),
    decreases snapshots.len() - at,
{
    let grown = snapshots.push(snapshot);
    if at < snapshots.len() {
        assert(grown[at] == snapshots[at]);
        lemma_frozen_push(snapshots, snapshot, thread_id, turn_id, at + 1);
    } else {
        assert(grown[at] == snapshot);
        assert(frozen_from(grown, thread_id, turn_id, at + 1) is None);
    }
}

proof fn lemma_frozen_skip(
    snapshots: Seq<SnapshotView>,
    thread_id: Seq<char>,
    turn_id: Seq<char>,
    cut: int,
    at: int,
)
    requires
        0 <= cut <= at <= snapshots.len(),
    ensures
        frozen_from(snapshots.skip(cut), thread_id, turn_id, at - cut) == frozen_from(
            snapshots,
            thread_id,
            turn_id,
            at,
        ),
    decreases snapshots.len() - at,
{
    if at < snapshots.len() {
        assert(snapshots.skip(cut)[at - cut] == snapshots[at]);
        lemma_frozen_skip(snapshots, thread_id, turn_id, cut, at + 1);
    }
}

proof fn lemma_absent_skip(
    snapshots: Seq<SnapshotView>,
    thread_id: Seq<char>,
    turn_id: Seq<char>,
    at: int,
    later: int,
)
    requires
        0 <= at <= later <= snapshots.len(),
        frozen_from(snapshots, thread_id, turn_id, at) is None,
    ensures
        frozen_from(snapshots, thread_id, turn_id, later) is None,
    decreases later - at,
{
    if at < later {
        lemma_absent_skip(snapshots, thread_id, turn_id, at + 1, later);
    }
}

/// A store in memory answers every query with the best of its records.
pub proof fn law_stores_recall_the_best(
    store: InMemoryStore,
    query: Seq<char>,
    limit: usize,
    memories: Result<Seq<MemoryRecordView>, ContextErrorView>,
)
    requires
        asked(store, query, limit, memories),
    ensures
        memories matches Ok(found) && best_memories(store.records(), query, limit as nat, found),
{
}

/// A store with a journal answers every query with the best of its records.
pub proof fn law_journals_recall_the_best<
    W: Fn(MemoryEnvelope) -> WriteOutcome,
    C: Fn() -> u64,
>(
    store: MemoryJournal<W, C>,
    query: Seq<char>,
    limit: usize,
    memories: Result<Seq<MemoryRecordView>, ContextErrorView>,
)
    requires
        asked(store, query, limit, memories),
    ensures
        memories matches Ok(found) && best_memories(store.records(), query, limit as nat, found),
{
}

/// The memories of a turn are frozen when they are first recalled: from then on they are
/// what the turn gets, whatever the store holds meanwhile, and other turns do not disturb
/// them while there is room.
pub proof fn law_memory_is_frozen(
    snapshots: Seq<SnapshotView>,
    snapshot: SnapshotView,
    maximum: nat,
)
    requires
        maximum > 0,
        frozen_from(snapshots, snapshot.thread_id, snapshot.turn_id, 0) is None,
    ensures
        frozen_from(
            remembered(snapshots, snapshot, maximum),
            snapshot.thread_id,
            snapshot.turn_id,
            0,
        ) == Some(snapshot.memories),
        forall|thread_id: Seq<char>, turn_id: Seq<char>|
            snapshots.len() < maximum && #[trigger] frozen_from(
                snapshots,
                thread_id,
                turn_id,
                0,
            ) is Some ==> frozen_from(
                remembered(snapshots, snapshot, maximum),
                thread_id,
                turn_id,
                0,
            ) == frozen_from(snapshots, thread_id, turn_id, 0),
{
    let grown = snapshots.push(snapshot);
    let thread = snapshot.thread_id;
    let turn = snapshot.turn_id;
    lemma_frozen_push(snapshots, snapshot, thread, turn, 0);
    if grown.len() > maximum {
        let cut = grown.len() - maximum;
        lemma_absent_skip(snapshots, thread, turn, 0, cut);
        lemma_frozen_push(snapshots, snapshot, thread, turn, cut);
        lemma_frozen_skip(grown, thread, turn, cut, cut);
    }
    assert forall|thread_id: Seq<char>, turn_id: Seq<char>|
        snapshots.len() < maximum && #[trigger] frozen_from(
            snapshots,
            thread_id,
            turn_id,
            0,
        ) is Some implies frozen_from(
        remembered(snapshots, snapshot, maximum),
        thread_id,
        turn_id,
        0,
    ) == frozen_from(snapshots, thread_id, turn_id, 0) by {
        lemma_frozen_push(snapshots, snapshot, thread_id, turn_id, 0);
    }
}

} // verus!
