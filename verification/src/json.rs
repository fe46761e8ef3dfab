//! JSON values: their model, and reading and writing them through `serde_json`.

use vstd::prelude::*;

use crate::datum::Datum;
use crate::keyed::{ascending, entry_keys, entry_map, lemma_entries, Keyed};

verus! {

// ---------------------------------------------------------------------------
// The outside types
// ---------------------------------------------------------------------------

/// `serde_json::Number`, held as it is for numbers that are no integers.
#[verifier::external_type_specification]
#[verifier::external_body]
pub struct ExNumber(serde_json::Number);

/// `serde_json::Value`, the tree that `serde_json` reads and writes.
#[verifier::external_type_specification]
#[verifier::external_body]
pub struct ExValue(serde_json::Value);

/// The way `serde_json` writes a number.
pub uninterp spec fn number_text(number: serde_json::Number) -> Seq<char>;

/// What a tree of `serde_json` holds.
pub uninterp spec fn value_model(value: serde_json::Value) -> JsonView;

/// What `serde_json::from_str` makes of a text: a tree, or its error message.
pub uninterp spec fn json_parse(text: Seq<char>) -> Result<JsonView, Seq<char>>;

/// The compact text that `serde_json` writes for a tree.
pub uninterp spec fn json_text(value: JsonView) -> Seq<char>;

// ---------------------------------------------------------------------------
// The library's own tree
// ---------------------------------------------------------------------------

/// A number that is no integer of 64 bits. Only reading a JSON text makes one.
#[derive(Debug, PartialEq, Eq)]
pub struct Fraction {
    number: serde_json::Number,
}

impl Fraction {
    /// The way the number is written.
    pub closed spec fn written(&self) -> Seq<char> {
        number_text(self.number)
    }
}

/// A JSON value. Objects are kept in the order of their keys.
#[derive(Debug, PartialEq, Eq)]
pub enum Json {
    Null,
    Bool(bool),
    Unsigned(u64),
    Negative(i64),
    Float(Fraction),
    Text(String),
    Array(Vec<Json>),
    Object(Keyed<Json>),
}

/// The model of a JSON value. Integers are equal by value, other numbers by the
/// way they are written.
#[verifier::ext_equal]
pub ghost enum JsonView {
    Null,
    Bool(bool),
    Integer(int),
    Float(Seq<char>),
    Text(Seq<char>),
    Array(Seq<JsonView>),
    Object(Map<Seq<char>, JsonView>),
}

/// The model of a value.
pub open spec fn json_view(json: Json) -> JsonView
    decreases json,
{
    match json {
        Json::Null => JsonView::Null,
        Json::Bool(value) => JsonView::Bool(value),
        Json::Unsigned(value) => JsonView::Integer(value as int),
        Json::Negative(value) => JsonView::Integer(value as int),
        Json::Float(number) => JsonView::Float(number.written()),
        Json::Text(text) => JsonView::Text(text@),
        Json::Array(items) => JsonView::Array(
            Seq::new(
                items@.len(),
                |i: int|
                    if 0 <= i < items@.len() {
                        json_view(items@[i])
                    } else {
                        JsonView::Null
                    },
            ),
        ),
        Json::Object(members) => JsonView::Object(object_view(members)),
    }
}

/// The model of the members of an object.
pub closed spec fn object_view(members: Keyed<Json>) -> Map<Seq<char>, JsonView>
    decreases members,
{
    Map::new(
        |key: Seq<char>| entry_keys(members.entries@).contains(key),
        |key: Seq<char>|
            if entry_keys(members.entries@).contains(key) {
                json_view(members.entries@[entry_keys(members.entries@).index_of(key)].1)
            } else {
                JsonView::Null
            },
    )
}

impl View for Json {
    type V = JsonView;

    open spec fn view(&self) -> JsonView {
        json_view(*self)
    }
}

/// The members of an object are modelled one by one.
pub proof fn lemma_object(members: Keyed<Json>)
    ensures
        object_view(members) == members@.map_values(|json: Json| json_view(json)),
{
    lemma_entries(members);
    assert(object_view(members) =~= members@.map_values(|json: Json| json_view(json)));
}

/// The items of an array are modelled one by one.
pub proof fn lemma_array(items: Vec<Json>)
    ensures
        json_view(Json::Array(items)) == JsonView::Array(crate::datum::views(items@)),
{
    assert(json_view(Json::Array(items))->Array_0 =~= crate::datum::views(items@));
}

/// The member of an object under a key, if there is one.
pub open spec fn member(value: JsonView, key: Seq<char>) -> Option<JsonView> {
    match value {
        JsonView::Object(members) => if members.contains_key(key) {
            Some(members[key])
        } else {
            None
        },
        _ => None,
    }
}

/// The way a number is written, without the sign of a zero.
pub open spec fn unsigned_zero(written: Seq<char>) -> Seq<char> {
    if written == "-0.0"@ {
        "0.0"@
    } else {
        written
    }
}

/// Whether two values agree, with or without the sign of a zero.
pub open spec fn agree(left: JsonView, right: JsonView, signed: bool) -> bool
    decreases left,
{
    match (left, right) {
        (JsonView::Float(a), JsonView::Float(b)) => if signed {
            a == b
        } else {
            unsigned_zero(a) == unsigned_zero(b)
        },
        (JsonView::Array(a), JsonView::Array(b)) => a.len() == b.len() && forall|i: int|
            0 <= i < a.len() ==> agree(#[trigger] a[i], b[i], signed),
        (JsonView::Object(a), JsonView::Object(b)) => a.dom() == b.dom() && forall|key: Seq<char>|
            #[trigger] a.contains_key(key) ==> agree(a[key], b[key], signed),
        _ => left == right,
    }
}

/// Whether two values are equal as JSON. The two zeros of floating point are the same
/// number.
pub open spec fn equal_values(left: JsonView, right: JsonView) -> bool {
    agree(left, right, false)
}

/// Values that agree down to the sign of a zero are the same.
proof fn lemma_signed_agreement(left: JsonView, right: JsonView)
    ensures
        agree(left, right, true) == (left == right),
    decreases left,
{
    match (left, right) {
        (JsonView::Array(a), JsonView::Array(b)) => {
            assert forall|i: int| 0 <= i < a.len() implies agree(#[trigger] a[i], b[i], true) == (
            a[i] == b[i]) by {
                lemma_signed_agreement(a[i], b[i]);
            }
            if agree(left, right, true) {
                assert(a =~= b);
            }
        },
        (JsonView::Object(a), JsonView::Object(b)) => {
            assert forall|key: Seq<char>| #[trigger] a.contains_key(key) implies agree(
                a[key],
                b[key],
                true,
            ) == (a[key] == b[key]) by {
                lemma_signed_agreement(a[key], b[key]);
            }
            if agree(left, right, true) {
                assert forall|key: Seq<char>| #[trigger] a.contains_key(key) implies a[key]
                    == b[key] by {}
                assert(a =~= b);
            }
        },
        _ => {},
    }
}

// ---------------------------------------------------------------------------
// Calls into serde_json
// ---------------------------------------------------------------------------

/// `Number::to_string`: the text that `serde_json` writes for the number.
#[verifier::external_body]
fn write_number(number: &serde_json::Number) -> (text: String)
    ensures
        text@ == number_text(*number),
{
    number.to_string()
}

/// `==` of `serde_json::Number`: two numbers are equal if they are written the same, except
/// that the two zeros of floating point are equal too. No two other numbers are written
/// alike, and an integer is never equal to a number that is none.
#[verifier::external_body]
fn numbers_equal(left: &serde_json::Number, right: &serde_json::Number) -> (equal: bool)
    ensures
        equal == (unsigned_zero(number_text(*left)) == unsigned_zero(number_text(*right))),
{
    left == right
}

/// `Number::clone`: the copy is written as the number itself is.
#[verifier::external_body]
fn copy_number(number: &serde_json::Number) -> (copy: serde_json::Number)
    ensures
        number_text(copy) == number_text(*number),
{
    number.clone()
}

/// `serde_json::from_str` into its own tree: the tree that the text denotes, or
/// the message of its error. Both depend on the text alone.
#[verifier::external_body]
fn parse_value(text: &str) -> (parsed: Result<serde_json::Value, String>)
    ensures
        match parsed {
            Ok(value) => json_parse(text@) == Ok::<JsonView, Seq<char>>(value_model(value)),
            Err(message) => json_parse(text@) == Err::<JsonView, Seq<char>>(message@),
        },
{
    serde_json::from_str::<serde_json::Value>(text).map_err(|error| error.to_string())
}

/// `Value::to_string`: the compact text of a tree, which depends on what the tree
/// holds alone.
#[verifier::external_body]
fn write_value(value: &serde_json::Value) -> (text: String)
    ensures
        text@ == json_text(value_model(*value)),
{
    value.to_string()
}

/// Moves a tree of `serde_json::Value` into the library's own, variant by variant.
/// `serde_json::Map` yields its members in ascending order of their keys, each key
/// once.
#[verifier::external_body]
fn from_value(value: serde_json::Value) -> (json: Json)
    ensures
        json@ == value_model(value),
{
    match value {
        serde_json::Value::Null => Json::Null,
        serde_json::Value::Bool(value) => Json::Bool(value),
        serde_json::Value::Number(number) => match (number.as_u64(), number.as_i64()) {
            (Some(value), _) => Json::Unsigned(value),
            (None, Some(value)) => Json::Negative(value),
            (None, None) => Json::Float(Fraction { number }),
        },
        serde_json::Value::String(text) => Json::Text(text),
        serde_json::Value::Array(items) => Json::Array(items.into_iter().map(from_value).collect()),
        serde_json::Value::Object(members) => Json::Object(
            Keyed { entries: members.into_iter().map(|(k, v)| (k, from_value(v))).collect() },
        ),
    }
}

/// Copies the library's own tree into one of `serde_json::Value`, variant by
/// variant.
#[verifier::external_body]
fn to_value(json: &Json) -> (value: serde_json::Value)
    ensures
        value_model(value) == json@,
{
    match json {
        Json::Null => serde_json::Value::Null,
        Json::Bool(value) => serde_json::Value::Bool(*value),
        Json::Unsigned(value) => serde_json::Value::from(*value),
        Json::Negative(value) => serde_json::Value::from(*value),
        Json::Float(number) => serde_json::Value::Number(number.number.clone()),
        Json::Text(text) => serde_json::Value::String(text.clone()),
        Json::Array(items) => serde_json::Value::Array(items.iter().map(to_value).collect()),
        Json::Object(members) => serde_json::Value::Object(
            members.entries.iter().map(|(k, v)| (k.clone(), to_value(v))).collect(),
        ),
    }
}

// ---------------------------------------------------------------------------
// Reading and writing
// ---------------------------------------------------------------------------

/// Reads a JSON text. The error is the parser's message.
pub fn parse(text: &str) -> (parsed: Result<Json, String>)
    ensures
        match parsed {
            Ok(json) => json_parse(text@) == Ok::<JsonView, Seq<char>>(json@),
            Err(message) => json_parse(text@) == Err::<JsonView, Seq<char>>(message@),
        },
{
    match parse_value(text) {
        Ok(value) => Ok(from_value(value)),
        Err(message) => Err(message),
    }
}

impl Json {
    /// The compact text of the value.
    pub fn to_text(&self) -> (text: String)
        ensures
            text@ == json_text(self@),
    {
        let value = to_value(self);
        write_value(&value)
    }

    /// The text that a text value holds.
    pub fn as_text(&self) -> (text: Option<&String>)
        ensures
            match text {
                Some(found) => self@ == JsonView::Text(found@),
                None => !(self@ is Text),
            },
    {
        match self {
            Json::Text(text) => Some(text),
            _ => None,
        }
    }

    /// The number that the value holds, if it is an integer of 64 bits without sign.
    pub fn as_unsigned(&self) -> (number: Option<u64>)
        ensures
            match number {
                Some(found) => self@ == JsonView::Integer(found as int),
                None => self@ matches JsonView::Integer(n) ==> n < 0 || n > u64::MAX,
            },
    {
        match self {
            Json::Unsigned(value) => Some(*value),
            Json::Negative(value) => if *value >= 0 {
                Some(*value as u64)
            } else {
                None
            },
            _ => None,
        }
    }

    /// The items of an array.
    pub fn as_array(&self) -> (items: Option<&Vec<Json>>)
        ensures
            match items {
                Some(found) => self@ == JsonView::Array(crate::datum::views(found@)),
                None => !(self@ is Array),
            },
    {
        match self {
            Json::Array(items) => {
                proof {
                    lemma_array(*items);
                }
                Some(items)
            },
            _ => None,
        }
    }

    /// The members of an object.
    pub fn as_object(&self) -> (members: Option<&Keyed<Json>>)
        ensures
            match members {
                Some(found) => self@ == JsonView::Object(object_view(*found)),
                None => !(self@ is Object),
            },
    {
        match self {
            Json::Object(members) => Some(members),
            _ => None,
        }
    }

    /// The member of an object under a key.
    pub fn get(&self, key: &str) -> (found: Option<&Json>)
        ensures
            match found {
                Some(json) => member(self@, key@) == Some(json@),
                None => member(self@, key@) is None,
            },
    {
        match self {
            Json::Object(members) => get_member(members, key),
            _ => None,
        }
    }
}

/// The member of an object under a key.
pub fn get_member<'a>(members: &'a Keyed<Json>, key: &str) -> (found: Option<&'a Json>)
    ensures
        match found {
            Some(json) => object_view(*members).contains_key(key@) && json@ == object_view(
                *members,
            )[key@],
            None => !object_view(*members).contains_key(key@),
        },
{
    proof {
        lemma_object(*members);
    }
    members.get(key)
}

/// An object without members.
pub fn no_members() -> (members: Keyed<Json>)
    ensures
        object_view(members) == Map::<Seq<char>, JsonView>::empty(),
{
    let members: Keyed<Json> = Keyed::new();
    proof {
        lemma_object(members);
        assert(object_view(members) =~= Map::<Seq<char>, JsonView>::empty());
    }
    members
}

/// Sets the member of an object under a key.
pub fn set_member(members: &mut Keyed<Json>, key: &str, value: Json)
    ensures
        object_view(*final(members)) == object_view(*old(members)).insert(key@, value@),
{
    proof {
        lemma_object(*members);
    }
    let ghost before = *members;
    let _ = members.insert(key.to_owned(), value);
    proof {
        lemma_object(*members);
        assert(object_view(*members) =~= object_view(before).insert(key@, value@));
    }
}

/// Removes the member of an object under a key.
pub fn unset_member(members: &mut Keyed<Json>, key: &str)
    ensures
        object_view(*final(members)) == object_view(*old(members)).remove(key@),
{
    proof {
        lemma_object(*members);
    }
    let ghost before = *members;
    let _ = members.remove(key);
    proof {
        lemma_object(*members);
        assert(object_view(*members) =~= object_view(before).remove(key@));
    }
}

// ---------------------------------------------------------------------------
// Copying and comparing
// ---------------------------------------------------------------------------

/// Copies a value.
pub fn copy_json(json: &Json) -> (copy: Json)
    ensures
        copy@ == json@,
    decreases json,
{
    match json {
        Json::Null => Json::Null,
        Json::Bool(value) => Json::Bool(*value),
        Json::Unsigned(value) => Json::Unsigned(*value),
        Json::Negative(value) => Json::Negative(*value),
        Json::Float(number) => Json::Float(Fraction { number: copy_number(&number.number) }),
        Json::Text(text) => Json::Text(text.clone()),
        Json::Array(items) => {
            let mut copies: Vec<Json> = Vec::new();
            let mut index: usize = 0;
            while index < items.len()
                invariant
                    index <= items@.len(),
                    copies@.len() == index,
                    *json == Json::Array(*items),
                    forall|i: int| 0 <= i < index ==> json_view(#[trigger] copies@[i]) == json_view(items@[i]),
                decreases items@.len() - index,
            {
                assert(decreases_to!(json => json->Array_0@[index as int]));
                let copy = copy_json(&items[index]);
                copies.push(copy);
                index = index + 1;
            }
            proof {
                lemma_array(copies);
                lemma_array(*items);
                assert(crate::datum::views(copies@) =~= crate::datum::views(items@));
            }
            Json::Array(copies)
        },
        Json::Object(members) => {
            let all = members.all();
            let mut entries: Vec<(String, Json)> = Vec::new();
            let mut index: usize = 0;
            while index < all.len()
                invariant
                    index <= all@.len(),
                    entries@.len() == index,
                    *all == members.entries,
                    *json == Json::Object(*members),
                    forall|i: int|
                        0 <= i < index ==> (#[trigger] entries@[i]).0@ == members.entries@[i].0@
                            && json_view(entries@[i].1) == json_view(members.entries@[i].1),
                decreases all@.len() - index,
            {
                assert(decreases_to!(json => json->Object_0.entries@[index as int].1));
                let copy = copy_json(&all[index].1);
                entries.push((all[index].0.clone(), copy));
                index = index + 1;
            }
            proof {
                assert(entry_keys(entries@) =~= entry_keys(members.entries@));
            }
            let copies: Keyed<Json> = Keyed::of_ascending(entries);
            proof {
                assert(object_view(copies) =~= object_view(*members));
            }
            Json::Object(copies)
        },
    }
}

/// Whether two values have the same model.
pub fn same_json(left: &Json, right: &Json) -> (equal: bool)
    ensures
        equal == (left@ == right@),
{
    proof {
        lemma_signed_agreement(left@, right@);
    }
    agrees(left, right, true)
}

/// Whether two values are equal as JSON.
pub fn equal_json(left: &Json, right: &Json) -> (equal: bool)
    ensures
        equal == equal_values(left@, right@),
{
    agrees(left, right, false)
}

fn agrees(left: &Json, right: &Json, signed: bool) -> (equal: bool)
    ensures
        equal == agree(left@, right@, signed),
    decreases left, 1int,
{
    match (left, right) {
        (Json::Null, Json::Null) => true,
        (Json::Bool(a), Json::Bool(b)) => *a == *b,
        (Json::Unsigned(a), Json::Unsigned(b)) => *a == *b,
        (Json::Negative(a), Json::Negative(b)) => *a == *b,
        (Json::Unsigned(a), Json::Negative(b)) => *b >= 0 && *a == *b as u64,
        (Json::Negative(a), Json::Unsigned(b)) => *a >= 0 && *a as u64 == *b,
        (Json::Float(a), Json::Float(b)) => if signed {
            write_number(&a.number).same(&write_number(&b.number))
        } else {
            numbers_equal(&a.number, &b.number)
        },
        (Json::Text(a), Json::Text(b)) => a.same(b),
        (Json::Array(a), Json::Array(b)) => {
            proof {
                lemma_array(*a);
                lemma_array(*b);
            }
            let ghost va = crate::datum::views(a@);
            let ghost vb = crate::datum::views(b@);
            if a.len() != b.len() {
                assert(va.len() != vb.len());
                return false;
            }
            let mut index: usize = 0;
            while index < a.len()
                invariant
                    index <= a@.len(),
                    a@.len() == b@.len(),
                    *left == Json::Array(*a),
                    left@ == JsonView::Array(va),
                    right@ == JsonView::Array(vb),
                    va == crate::datum::views(a@),
                    vb == crate::datum::views(b@),
                    forall|i: int| 0 <= i < index ==> agree(#[trigger] va[i], vb[i], signed),
                decreases a@.len() - index,
            {
                assert(decreases_to!(left => left->Array_0@[index as int]));
                let equal = agrees(&a[index], &b[index], signed);
                assert(va[index as int] == a@[index as int]@);
                assert(vb[index as int] == b@[index as int]@);
                if !equal {
                    assert(!agree(va[index as int], vb[index as int], signed));
                    return false;
                }
                index = index + 1;
            }
            true
        },
        (Json::Object(a), Json::Object(b)) => members_agree(left, a, b, signed),
        _ => false,
    }
}

fn members_agree(outer: &Json, a: &Keyed<Json>, b: &Keyed<Json>, signed: bool) -> (equal: bool)
    requires
        *outer == Json::Object(*a),
    ensures
        equal == agree(
            JsonView::Object(object_view(*a)),
            JsonView::Object(object_view(*b)),
            signed,
        ),
    decreases outer, 0int,
{
    let left = a.all();
    let right = b.all();
    let ghost va = object_view(*a);
    let ghost vb = object_view(*b);
    proof {
        lemma_object(*a);
        lemma_object(*b);
        lemma_entries(*a);
        lemma_entries(*b);
    }
    let mut index: usize = 0;
    while index < left.len()
        invariant
            index <= left@.len(),
            *left == a.entries,
            *outer == Json::Object(*a),
            va == object_view(*a),
            vb == object_view(*b),
            va == a@.map_values(|json: Json| json_view(json)),
            a@ == entry_map(left@),
            ascending(entry_keys(left@)),
            forall|i: int|
                0 <= i < index ==> vb.contains_key((#[trigger] left@[i]).0@) && agree(
                    va[left@[i].0@],
                    vb[left@[i].0@],
                    signed,
                ),
        decreases left@.len() - index,
    {
        assert(decreases_to!(outer => outer->Object_0.entries@[index as int].1));
        proof {
            crate::keyed::lemma_entry(left@, index as int);
        }
        let ghost key = left@[index as int].0@;
        assert(va.contains_key(key) && va[key] == left@[index as int].1@);
        match get_member(b, left[index].0.as_str()) {
            Some(other) => {
                if !agrees(&left[index].1, other, signed) {
                    assert(!agree(va[key], vb[key], signed));
                    return false;
                }
            },
            None => {
                assert(va.dom().contains(key) && !vb.dom().contains(key));
                return false;
            },
        }
        index = index + 1;
    }
    let mut next: usize = 0;
    while next < right.len()
        invariant
            next <= right@.len(),
            *right == b.entries,
            va == object_view(*a),
            vb == object_view(*b),
            vb == b@.map_values(|json: Json| json_view(json)),
            b@ == entry_map(right@),
            ascending(entry_keys(right@)),
            forall|i: int| 0 <= i < next ==> va.contains_key((#[trigger] right@[i]).0@),
        decreases right@.len() - next,
    {
        proof {
            crate::keyed::lemma_entry(right@, next as int);
        }
        assert(vb.contains_key(right@[next as int].0@));
        match get_member(a, right[next].0.as_str()) {
            Some(_) => {},
            None => {
                assert(!va.dom().contains(right@[next as int].0@));
                return false;
            },
        }
        next = next + 1;
    }
    proof {
        assert forall|key: Seq<char>| #[trigger] va.contains_key(key) implies vb.dom().contains(key)
            && agree(va[key], vb[key], signed) by {
            crate::keyed::lemma_key(left@, key);
        }
        assert forall|key: Seq<char>| vb.dom().contains(key) implies va.dom().contains(key) by {
            crate::keyed::lemma_key(right@, key);
        }
        assert(va.dom() =~= vb.dom());
    }
    true
}

impl Datum for Json {
    fn snapshot(&self) -> (copy: Self) {
        copy_json(self)
    }

    fn same(&self, other: &Self) -> (equal: bool) {
        same_json(self, other)
    }
}

impl Clone for Json {
    fn clone(&self) -> (copy: Self)
        ensures
            copy@ == self@,
    {
        copy_json(self)
    }
}

// ---------------------------------------------------------------------------
// Building values
// ---------------------------------------------------------------------------

/// The model of an object without members.
pub open spec fn bare_object() -> Map<Seq<char>, JsonView> {
    Map::empty()
}

/// A text value.
pub fn text_json(text: &str) -> (json: Json)
    ensures
        json@ == JsonView::Text(text@),
{
    Json::Text(text.to_owned())
}

/// The members with one more.
pub fn with_member(members: Keyed<Json>, key: &str, value: Json) -> (grown: Keyed<Json>)
    ensures
        object_view(grown) == object_view(members).insert(key@, value@),
{
    let mut grown = members;
    set_member(&mut grown, key, value);
    grown
}

/// An array of texts.
pub fn text_array(texts: &Vec<String>) -> (json: Json)
    ensures
        json@ == JsonView::Array(
            crate::datum::views(texts@).map_values(|text: Seq<char>| JsonView::Text(text)),
        ),
{
    let ghost wanted = crate::datum::views(texts@).map_values(|text: Seq<char>| JsonView::Text(text));
    let mut items: Vec<Json> = Vec::new();
    let mut index: usize = 0;
    assert(crate::datum::views(items@) =~= wanted.take(0));
    while index < texts.len()
        invariant
            index <= texts@.len(),
            wanted == crate::datum::views(texts@).map_values(
                |text: Seq<char>| JsonView::Text(text),
            ),
            crate::datum::views(items@) == wanted.take(index as int),
        decreases texts@.len() - index,
    {
        let item = Json::Text(texts[index].clone());
        proof {
            crate::datum::lemma_views_push(items@, item);
            assert(wanted.take(index as int + 1) =~= wanted.take(index as int).push(item@));
        }
        items.push(item);
        index = index + 1;
    }
    proof {
        assert(wanted.take(index as int) =~= wanted);
        lemma_array(items);
    }
    Json::Array(items)
}

} // verus!
