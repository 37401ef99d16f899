//! JSON values, and their text by way of `serde_json`.

use vstd::prelude::*;

use crate::keyed_map::{map_of, Duplicate};
use crate::text::is_space;

verus! {

/// A JSON number of `serde_json`, carried without being looked into.
#[verifier::external_type_specification]
#[verifier::external_body]
pub struct ExNumber(serde_json::Number);

/// A JSON value of `serde_json`.
#[verifier::external_type_specification]
#[verifier::external_body]
pub struct ExValue(serde_json::Value);

/// `Number::clone` gives an equal number.
pub assume_specification[ <serde_json::Number as Clone>::clone ](
    number: &serde_json::Number,
) -> (copy: serde_json::Number)
    ensures
        copy == *number,
;

/// A number with a fraction or an exponent, as it was read.
#[derive(Debug)]
pub struct Fraction {
    number: serde_json::Number,
}

/// A JSON value.
///
/// Of two entries of an object with one key, the later counts.
#[derive(Debug)]
pub enum Json {
    Null,
    Bool(bool),
    /// A whole number of at least zero.
    Unsigned(u64),
    /// A whole number below zero.
    Negative(i64),
    /// A number with a fraction or an exponent.
    Float(Fraction),
    Text(String),
    Array(Vec<Json>),
    Object(Vec<(String, Json)>),
}

/// What a JSON value means: objects are maps.
pub enum JsonView {
    Null,
    Bool(bool),
    Unsigned(u64),
    Negative(i64),
    Float(Fraction),
    Text(Seq<char>),
    Array(Seq<JsonView>),
    Object(Map<Seq<char>, JsonView>),
}

/// The meaning of a value.
pub open spec fn meaning(value: Json) -> JsonView
    decreases value,
{
    match value {
        Json::Null => JsonView::Null,
        Json::Bool(b) => JsonView::Bool(b),
        Json::Unsigned(n) => JsonView::Unsigned(n),
        Json::Negative(n) => if n < 0 {
            JsonView::Negative(n)
        } else {
            JsonView::Unsigned(n as u64)
        },
        Json::Float(n) => JsonView::Float(n),
        Json::Text(s) => JsonView::Text(s@),
        Json::Array(items) => JsonView::Array(
            Seq::new(
                items@.len(),
                |i: int|
                    if 0 <= i < items@.len() {
                        meaning(items@[i])
                    } else {
                        JsonView::Null
                    },
            ),
        ),
        Json::Object(entries) => JsonView::Object(map_of(entry_meanings(entries))),
    }
}

/// The keys and the meanings of the values of an object's entries.
pub open spec fn entry_meanings(entries: Vec<(String, Json)>) -> Seq<(Seq<char>, JsonView)>
    decreases entries,
{
    Seq::new(
        entries@.len(),
        |i: int|
            if 0 <= i < entries@.len() {
                (entries@[i].0@, meaning(entries@[i].1))
            } else {
                (Seq::empty(), JsonView::Null)
            },
    )
}

impl View for Json {
    type V = JsonView;

    open spec fn view(&self) -> JsonView {
        meaning(*self)
    }
}

impl DeepView for Json {
    type V = JsonView;

    open spec fn deep_view(&self) -> JsonView {
        meaning(*self)
    }
}

impl Json {
    /// The array whose items mean `items`.
    pub proof fn lemma_array(items: Vec<Json>)
        ensures
            meaning(Json::Array(items)) == JsonView::Array(items.deep_view()),
    {
        let value = meaning(Json::Array(items));
        assert(value is Array);
        assert(value->Array_0 =~= items.deep_view());
    }

    /// The object whose entries mean `entries`.
    pub proof fn lemma_object(entries: Vec<(String, Json)>)
        ensures
            meaning(Json::Object(entries)) == JsonView::Object(map_of(entries.deep_view())),
            entry_meanings(entries) == entries.deep_view(),
    {
        assert(entry_meanings(entries) =~= entries.deep_view());
    }
}

impl Duplicate for Json {
    fn duplicate(&self) -> (copy: Self)
        decreases self,
    {
        match self {
            Json::Null => Json::Null,
            Json::Bool(b) => Json::Bool(*b),
            Json::Unsigned(n) => Json::Unsigned(*n),
            Json::Negative(n) => Json::Negative(*n),
            Json::Float(fraction) => Json::Float(Fraction { number: fraction.number.clone() }),
            Json::Text(s) => Json::Text(s.clone()),
            Json::Array(items) => {
                let mut copies: Vec<Json> = Vec::new();
                let mut i: usize = 0;
                while i < items.len()
                    invariant
                        *self == Json::Array(*items),
                        i <= items@.len(),
                        copies@.len() == i,
                        forall|j: int|
                            0 <= j < i ==> #[trigger] copies@[j].deep_view()
                                == items@[j].deep_view(),
                    decreases items@.len() - i,
                {
                    assert(decreases_to!(*self => self->Array_0));
                    assert(decreases_to!(*items => items[i as int]));
                    copies.push(items[i].duplicate());
                    i += 1;
                }
                proof {
                    Json::lemma_array(*items);
                    Json::lemma_array(copies);
                    assert(copies.deep_view() =~= items.deep_view());
                }
                Json::Array(copies)
            },
            Json::Object(entries) => {
                let mut copies: Vec<(String, Json)> = Vec::new();
                let mut i: usize = 0;
                while i < entries.len()
                    invariant
                        *self == Json::Object(*entries),
                        i <= entries@.len(),
                        copies@.len() == i,
                        forall|j: int|
                            0 <= j < i ==> #[trigger] copies@[j].deep_view()
                                == entries@[j].deep_view(),
                    decreases entries@.len() - i,
                {
                    assert(decreases_to!(*self => self->Object_0));
                    assert(decreases_to!(*entries => entries[i as int]));
                    copies.push((entries[i].0.clone(), entries[i].1.duplicate()));
                    i += 1;
                }
                proof {
                    Json::lemma_object(*entries);
                    Json::lemma_object(copies);
                    assert(copies.deep_view() =~= entries.deep_view());
                }
                Json::Object(copies)
            },
        }
    }
}

/// What a value of `serde_json` holds: its tree of JSON values.
pub uninterp spec fn held(value: serde_json::Value) -> JsonView;

/// The text that `serde_json` writes for a value.
pub uninterp spec fn json_text(value: JsonView) -> Seq<char>;

/// The value that `serde_json` reads from a text, or what it says of a text that it does not accept.
pub uninterp spec fn json_read(text: Seq<char>) -> Result<JsonView, Seq<char>>;

/// What `serde_json` says of a value that it does not take for a list of strings.
pub uninterp spec fn no_texts(value: JsonView) -> Seq<char>;

/// What `serde_json` says of a text that it does not read as a list of strings.
pub uninterp spec fn no_texts_read(text: Seq<char>) -> Seq<char>;

/// The texts of a list of strings.
pub open spec fn texts_of(value: JsonView) -> Option<Seq<Seq<char>>> {
    match value {
        JsonView::Array(items) => if forall|i: int|
            0 <= i < items.len() ==> (#[trigger] items[i]) is Text {
            Some(items.map_values(|item: JsonView| item->Text_0))
        } else {
            None
        },
        _ => None,
    }
}

/// The list of strings that a value is, or why it is none.
pub open spec fn taken_texts(value: JsonView) -> Result<Seq<Seq<char>>, Seq<char>> {
    match texts_of(value) {
        Some(texts) => Ok(texts),
        None => Err(no_texts(value)),
    }
}

/// The list of strings that a text is, or why it is none.
pub open spec fn read_texts_of(text: Seq<char>) -> Result<Seq<Seq<char>>, Seq<char>> {
    match json_read(text) {
        Ok(value) => match texts_of(value) {
            Some(texts) => Ok(texts),
            None => Err(no_texts_read(text)),
        },
        Err(_) => Err(no_texts_read(text)),
    }
}

/// How many arrays and objects lie within each other at the deepest place, at most `limit`.
pub open spec fn nests_within(value: JsonView, limit: nat) -> bool
    decreases limit,
{
    match value {
        JsonView::Array(items) => limit > 0 && forall|i: int|
            0 <= i < items.len() ==> nests_within(#[trigger] items[i], (limit - 1) as nat),
        JsonView::Object(map) => limit > 0 && forall|key: Seq<char>|
            map.contains_key(key) ==> nests_within(#[trigger] map[key], (limit - 1) as nat),
        _ => true,
    }
}

/// Whether no number in `value`, down to `limit` levels, has a fraction or an exponent.
pub open spec fn whole_numbers(value: JsonView, limit: nat) -> bool
    decreases limit,
{
    match value {
        JsonView::Float(_) => false,
        JsonView::Array(items) => limit > 0 ==> forall|i: int|
            0 <= i < items.len() ==> whole_numbers(#[trigger] items[i], (limit - 1) as nat),
        JsonView::Object(map) => limit > 0 ==> forall|key: Seq<char>|
            map.contains_key(key) ==> whole_numbers(#[trigger] map[key], (limit - 1) as nat),
        _ => true,
    }
}

/// The nesting that `serde_json` reads.
pub const NESTING_LIMIT: usize = 127;

/// Whether writing a value and reading the text gives the value back: it nests no deeper than
/// texts are read, and none of its numbers has a fraction, which reading may round.
pub open spec fn reads_back(value: JsonView) -> bool {
    nests_within(value, NESTING_LIMIT as nat) && whole_numbers(value, NESTING_LIMIT as nat)
}

/// Builds the `serde_json::Value` that holds `value`, variant by variant. Of two entries with one
/// key `Map::from_iter` keeps the later.
#[verifier::external_body]
fn to_outside(value: &Json) -> (outside: serde_json::Value)
    ensures
        held(outside) == value@,
{
    match value {
        Json::Null => serde_json::Value::Null,
        Json::Bool(b) => serde_json::Value::Bool(*b),
        Json::Unsigned(n) => serde_json::Value::from(*n),
        Json::Negative(n) => serde_json::Value::from(*n),
        Json::Float(fraction) => serde_json::Value::Number(fraction.number.clone()),
        Json::Text(s) => serde_json::Value::String(s.clone()),
        Json::Array(items) => serde_json::Value::Array(items.iter().map(to_outside).collect()),
        Json::Object(entries) => serde_json::Value::Object(
            entries.iter().map(|entry| (entry.0.clone(), to_outside(&entry.1))).collect(),
        ),
    }
}

/// Takes a `serde_json::Value` apart, variant by variant. `Number::as_u64` and `Number::as_i64`
/// tell a whole number of at least zero, one below zero and any other number apart.
#[verifier::external_body]
fn from_outside(outside: serde_json::Value) -> (value: Json)
    ensures
        value@ == held(outside),
{
    match outside {
        serde_json::Value::Null => Json::Null,
        serde_json::Value::Bool(b) => Json::Bool(b),
        serde_json::Value::Number(number) => match (number.as_u64(), number.as_i64()) {
            (Some(n), _) => Json::Unsigned(n),
            (None, Some(n)) => Json::Negative(n),
            (None, None) => Json::Float(Fraction { number }),
        },
        serde_json::Value::String(s) => Json::Text(s),
        serde_json::Value::Array(items) => Json::Array(items.into_iter().map(from_outside).collect()),
        serde_json::Value::Object(map) => Json::Object(map.into_iter().map(|e| (e.0, from_outside(e.1))).collect()),
    }
}

/// Calls the `Display` of `serde_json::Value`, which writes the compact text of the value. The
/// text depends on what the value holds alone, since objects are written in the order of their
/// keys; it neither begins nor ends with whitespace, and is a single line, since control characters
/// are written as escapes; and `serde_json::from_str` reads the value back from it where the value
/// nests no deeper than the reader's limit and has no number with a fraction.
#[verifier::external_body]
fn outside_text(outside: &serde_json::Value) -> (text: String)
    ensures
        text@ == json_text(held(*outside)),
        text@.len() > 0 && !is_space(text@[0]) && !is_space(text@.last()),
        !text@.contains('\n'),
        reads_back(held(*outside)) ==> json_read(text@) is Ok && json_read(text@)->Ok_0 == held(
            *outside,
        ),
{
    outside.to_string()
}

/// Calls `serde_json::from_str` for a `serde_json::Value`. Whether it accepts the text, which value
/// it then reads, and otherwise the words of its error depend on the text alone.
#[verifier::external_body]
fn outside_read(text: &str) -> (result: Result<serde_json::Value, String>)
    ensures
        match result {
            Ok(outside) => json_read(text@) == Ok::<_, Seq<char>>(held(outside)),
            Err(cause) => json_read(text@) == Err::<JsonView, _>(cause@),
        },
{
    match serde_json::from_str(text) {
        Ok(outside) => Ok(outside),
        Err(error) => Err(error.to_string()),
    }
}

/// Calls `serde_json::from_value` for a `Vec<String>`. It accepts the arrays of which every item is a
/// string, and gives those strings; otherwise the words of its error depend on what the value holds
/// alone.
#[verifier::external_body]
fn outside_texts(outside: serde_json::Value) -> (result: Result<Vec<String>, String>)
    ensures
        match result {
            Ok(texts) => texts_of(held(outside)) == Some(texts.deep_view()),
            Err(cause) => texts_of(held(outside)) is None && cause@ == no_texts(held(outside)),
        },
{
    match serde_json::from_value(outside) {
        Ok(texts) => Ok(texts),
        Err(error) => Err(error.to_string()),
    }
}

/// Calls `serde_json::from_str` for a `Vec<String>`. It accepts the texts that are read as an array
/// of strings, and gives those strings; otherwise the words of its error depend on the text alone.
#[verifier::external_body]
fn outside_read_texts(text: &str) -> (result: Result<Vec<String>, String>)
    ensures
        match result {
            Ok(texts) => json_read(text@) is Ok && texts_of(json_read(text@)->Ok_0) == Some(
                texts.deep_view(),
            ),
            Err(cause) => !(json_read(text@) is Ok && texts_of(json_read(text@)->Ok_0) is Some)
                && cause@ == no_texts_read(text@),
        },
{
    match serde_json::from_str(text) {
        Ok(texts) => Ok(texts),
        Err(error) => Err(error.to_string()),
    }
}

/// The compact text of a JSON value.
pub fn write_json(value: &Json) -> (text: String)
    ensures
        text@ == json_text(value@),
        text@.len() > 0 && !is_space(text@[0]) && !is_space(text@.last()),
        !text@.contains('\n'),
        reads_back(value@) ==> json_read(text@) == Ok::<_, Seq<char>>(value@),
{
    let outside = to_outside(value);
    outside_text(&outside)
}

/// Reads the JSON value of a text.
pub fn read_json(text: &str) -> (result: Result<Json, String>)
    ensures
        match result {
            Ok(value) => json_read(text@) == Ok::<_, Seq<char>>(value@),
            Err(cause) => json_read(text@) == Err::<JsonView, _>(cause@),
        },
{
    match outside_read(text) {
        Ok(outside) => Ok(from_outside(outside)),
        Err(cause) => Err(cause),
    }
}

/// Takes a value for a list of strings.
pub fn take_texts(value: &Json) -> (result: Result<Vec<String>, String>)
    ensures
        match result {
            Ok(texts) => taken_texts(value@) == Ok::<_, Seq<char>>(texts.deep_view()),
            Err(cause) => taken_texts(value@) == Err::<Seq<Seq<char>>, _>(cause@),
        },
{
    outside_texts(to_outside(value))
}

/// Reads the list of strings of a text.
pub fn read_texts(text: &str) -> (result: Result<Vec<String>, String>)
    ensures
        match result {
            Ok(texts) => read_texts_of(text@) == Ok::<_, Seq<char>>(texts.deep_view()),
            Err(cause) => read_texts_of(text@) == Err::<Seq<Seq<char>>, _>(cause@),
        },
{
    outside_read_texts(text)
}

/// A value is a list of strings exactly when it is an array with those strings, one after another.
pub proof fn law_lists_of_strings(value: JsonView, texts: Seq<Seq<char>>)
    ensures
        texts_of(value) == Some(texts) <==> {
            &&& value is Array
            &&& value->Array_0.len() == texts.len()
            &&& forall|i: int|
                0 <= i < texts.len() ==> #[trigger] value->Array_0[i] == JsonView::Text(texts[i])
        },
        texts_of(value) is None <==> !(value is Array) || exists|i: int|
            0 <= i < value->Array_0.len() && !((#[trigger] value->Array_0[i]) is Text),
{
    if let JsonView::Array(items) = value {
        let found = items.map_values(|item: JsonView| item->Text_0);
        if texts_of(value) == Some(texts) {
            assert forall|i: int| 0 <= i < texts.len() implies #[trigger] items[i]
                == JsonView::Text(texts[i]) by {
                assert(found[i] == items[i]->Text_0);
                assert(items[i] is Text);
            }
        }
        if items.len() == texts.len() && forall|i: int|
            0 <= i < texts.len() ==> #[trigger] items[i] == JsonView::Text(texts[i]) {
            assert(found =~= texts);
        }
    }
}

/// Reading a list of strings from a text gives the strings of the value that the text holds, and
/// fails where that value is no such list or the text no value.
pub proof fn law_lists_are_read(text: Seq<char>)
    ensures
        read_texts_of(text) is Ok <==> json_read(text) is Ok && texts_of(json_read(text)->Ok_0) is Some,
        read_texts_of(text) is Ok ==> texts_of(json_read(text)->Ok_0) == Some(
            read_texts_of(text)->Ok_0,
        ),
{
}

/// A list of strings is taken from a value just where the value is one.
pub proof fn law_lists_are_taken(value: JsonView)
    ensures
        taken_texts(value) is Ok <==> texts_of(value) is Some,
        taken_texts(value) is Ok ==> texts_of(value) == Some(taken_texts(value)->Ok_0),
{
}

} // verus!
