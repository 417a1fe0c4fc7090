//! JSON documents, held as `serde_json::Value` and described by [`Json`].

use crate::decimal::Decimal;
use crate::text;
use serde_json::Value;
use vstd::prelude::*;

verus! {

/// Names `serde_json::Value`, whose contents [`json_of`] describes.
#[verifier::external_type_specification]
#[verifier::external_body]
pub struct ExValue(serde_json::Value);

/// A JSON document. A number stands as the text it is written as.
pub enum Json {
    Null,
    Bool(bool),
    Number(Seq<char>),
    Text(Seq<char>),
    Array(Seq<Json>),
    Object(Map<Seq<char>, Json>),
}

/// The document that a value holds.
pub uninterp spec fn json_of(value: Value) -> Json;

/// The document that a text is read as, or what is said of a text that is none.
pub uninterp spec fn json_parsed(text: Seq<char>) -> Result<Json, Seq<char>>;

/// The document that bytes are read as, or what is said of bytes that are none.
pub uninterp spec fn json_parsed_bytes(bytes: Seq<u8>) -> Result<Json, Seq<char>>;

/// The text that a document is written as, without white space.
pub uninterp spec fn json_written(json: Json) -> Seq<char>;

/// The text that a document is written as, one entry to a line.
pub uninterp spec fn json_written_pretty(json: Json) -> Result<Seq<char>, Seq<char>>;

/// What a read value, or the failure to read one, holds.
pub open spec fn reading(r: Result<Value, String>) -> Result<Json, Seq<char>> {
    match r {
        Ok(v) => Ok(json_of(v)),
        Err(e) => Err(e@),
    }
}

/// The documents that values hold.
pub open spec fn jsons_of(values: Seq<Value>) -> Seq<Json> {
    Seq::new(values.len(), |i: int| json_of(values[i]))
}

impl Json {
    /// The entry of an object under `key`.
    pub open spec fn entry(self, key: Seq<char>) -> Option<Json> {
        match self {
            Json::Object(m) => if m.contains_key(key) {
                Some(m[key])
            } else {
                None
            },
            _ => None,
        }
    }

    /// The text that the document is, where it is one.
    pub open spec fn as_text(self) -> Option<Seq<char>> {
        match self {
            Json::Text(s) => Some(s),
            _ => None,
        }
    }

    /// The text under `key`.
    pub open spec fn text_at(self, key: Seq<char>) -> Option<Seq<char>> {
        match self.entry(key) {
            Some(v) => v.as_text(),
            None => None,
        }
    }

    /// The text under `inner` in the entry under `outer`.
    pub open spec fn text_within(self, outer: Seq<char>, inner: Seq<char>) -> Option<Seq<char>> {
        match self.entry(outer) {
            Some(v) => v.text_at(inner),
            None => None,
        }
    }

    /// The object with `value` under `key`.
    pub open spec fn with(self, key: Seq<char>, value: Json) -> Json {
        match self {
            Json::Object(m) => Json::Object(m.insert(key, value)),
            _ => self,
        }
    }

    /// The object with `value` under `key` where there is one.
    pub open spec fn with_option(self, key: Seq<char>, value: Option<Json>) -> Json {
        match value {
            Some(v) => self.with(key, v),
            None => self,
        }
    }

    /// The object without entries.
    pub open spec fn empty() -> Json {
        Json::Object(Map::empty())
    }

    /// The integer `n`.
    pub open spec fn integer(n: nat) -> Json {
        Json::Number(text::decimal(n))
    }

    /// A decimal number as a document: what its notation is read as, or null
    /// where that is no document.
    pub open spec fn decimal(d: Decimal) -> Json {
        match json_parsed(d.fractional_notation()) {
            Ok(j) => j,
            Err(_) => Json::Null,
        }
    }

    /// The text `s` as a document, where there is one.
    pub open spec fn text_option(s: Option<Seq<char>>) -> Option<Json> {
        match s {
            Some(t) => Some(Json::Text(t)),
            None => None,
        }
    }
}

/// What kind of document a value holds.
#[derive(Debug, Clone, Copy, PartialEq, Eq, Structural)]
pub enum Kind {
    Null,
    Bool,
    Number,
    Text,
    Array,
    Object,
}

// ---------------------------------------------------------------------------
// Calls into serde_json
// ---------------------------------------------------------------------------

/// Trusts `serde_json::from_str`: what it returns for a text, its error by its
/// message, depends on the text alone and is called [`json_parsed`]. The
/// notation of a decimal number is read as a number; which of the numbers that
/// a value can hold stands for it is not said.
#[verifier::external_body]
pub(crate) fn parse(text: &str) -> (r: Result<Value, String>)
    ensures
        reading(r) == json_parsed(text@),
        (exists|d: Decimal| text@ == #[trigger] d.fractional_notation()) ==> (reading(
            r,
        ) matches Ok(Json::Number(_))),
{
    serde_json::from_str::<Value>(text).map_err(|e| e.to_string())
}

/// Trusts `serde_json::from_slice`: what it returns for bytes, its error by its
/// message, depends on the bytes alone and is called [`json_parsed_bytes`].
#[verifier::external_body]
pub(crate) fn parse_bytes(bytes: &[u8]) -> (r: Result<Value, String>)
    ensures
        reading(r) == json_parsed_bytes(bytes@),
{
    serde_json::from_slice::<Value>(bytes).map_err(|e| e.to_string())
}

/// Trusts `Value`'s `to_string`: the text depends on the document alone (the
/// entries of an object are written in the order of their keys) and is called
/// [`json_written`].
#[verifier::external_body]
pub(crate) fn write(value: &Value) -> (r: String)
    ensures
        r@ == json_written(json_of(*value)),
{
    value.to_string()
}

/// Trusts `serde_json::to_string_pretty`: what it returns, its error by its
/// message, depends on the document alone and is called
/// [`json_written_pretty`].
#[verifier::external_body]
pub(crate) fn write_pretty(value: &Value) -> (r: Result<String, String>)
    ensures
        match r {
            Ok(s) => json_written_pretty(json_of(*value)) == Ok::<Seq<char>, Seq<char>>(s@),
            Err(e) => json_written_pretty(json_of(*value)) == Err::<Seq<char>, Seq<char>>(e@),
        },
{
    serde_json::to_string_pretty(value).map_err(|e| e.to_string())
}

/// Trusts `Value::get` with a key: the entry of an object under that key, and
/// nothing where there is none or the value is no object.
#[verifier::external_body]
pub(crate) fn get<'a>(value: &'a Value, key: &str) -> (r: Option<&'a Value>)
    ensures
        match r {
            Some(v) => json_of(*value).entry(key@) == Some(json_of(*v)),
            None => json_of(*value).entry(key@) is None,
        },
{
    value.get(key)
}

/// Trusts `Value::as_str`: the text of a text value, and nothing for any other.
#[verifier::external_body]
pub(crate) fn as_text(value: &Value) -> (r: Option<&str>)
    ensures
        r.deep_view() == json_of(*value).as_text(),
{
    value.as_str()
}

/// Trusts `Value::as_bool`: the truth of a truth value, and nothing for any
/// other.
#[verifier::external_body]
pub(crate) fn as_bool(value: &Value) -> (r: Option<bool>)
    ensures
        r == match json_of(*value) {
            Json::Bool(b) => Some(b),
            _ => None,
        },
{
    value.as_bool()
}

/// Trusts the variants of `Value`: each stands for one kind of document.
#[verifier::external_body]
pub(crate) fn kind(value: &Value) -> (r: Kind)
    ensures
        r == match json_of(*value) {
            Json::Null => Kind::Null,
            Json::Bool(_) => Kind::Bool,
            Json::Number(_) => Kind::Number,
            Json::Text(_) => Kind::Text,
            Json::Array(_) => Kind::Array,
            Json::Object(_) => Kind::Object,
        },
{
    match value {
        Value::Null => Kind::Null,
        Value::Bool(_) => Kind::Bool,
        Value::Number(_) => Kind::Number,
        Value::String(_) => Kind::Text,
        Value::Array(_) => Kind::Array,
        Value::Object(_) => Kind::Object,
    }
}

/// Trusts `Value::Null`.
#[verifier::external_body]
pub(crate) fn null() -> (r: Value)
    ensures
        json_of(r) == Json::Null,
{
    Value::Null
}

/// Trusts `Value::from` of a `bool`.
#[verifier::external_body]
pub(crate) fn boolean(b: bool) -> (r: Value)
    ensures
        json_of(r) == Json::Bool(b),
{
    Value::from(b)
}

/// Trusts `Value::from` of a `u64`: a number that is written in decimal digits.
#[verifier::external_body]
pub(crate) fn integer(n: u64) -> (r: Value)
    ensures
        json_of(r) == Json::integer(n as nat),
{
    Value::from(n)
}

/// Trusts `Value::from` of a `&str`.
#[verifier::external_body]
pub(crate) fn text(s: &str) -> (r: Value)
    ensures
        json_of(r) == Json::Text(s@),
{
    Value::from(s)
}

/// Trusts `Value::from` of a `Vec<Value>`: the array of those values.
#[verifier::external_body]
pub(crate) fn array(values: Vec<Value>) -> (r: Value)
    ensures
        json_of(r) == Json::Array(jsons_of(values@)),
{
    Value::from(values)
}

/// Trusts `serde_json::Map::new`: an object without entries.
#[verifier::external_body]
pub(crate) fn object() -> (r: Value)
    ensures
        json_of(r) == Json::empty(),
{
    Value::Object(serde_json::Map::new())
}

/// Trusts assignment through `Value`'s index by a key: the object afterwards
/// holds the value under that key and is otherwise unchanged.
#[verifier::external_body]
pub(crate) fn put(object: &mut Value, key: &str, value: Value)
    requires
        json_of(*old(object)) is Object,
    ensures
        json_of(*final(object)) == json_of(*old(object)).with(key@, json_of(value)),
{
    object[key] = value;
}

/// Trusts `serde_json::Map::keys`: every key of an object once.
#[verifier::external_body]
pub(crate) fn keys(object: &Value) -> (r: Vec<String>)
    requires
        json_of(*object) is Object,
    ensures
        r.deep_view().no_duplicates(),
        r.deep_view().to_set() == json_of(*object)->Object_0.dom(),
{
    object.as_object().map(|m| m.keys().cloned().collect()).unwrap_or_default()
}

/// Trusts `Value::take` of the entry under a key: the entry comes out and null
/// stays in its place.
#[verifier::external_body]
pub(crate) fn take(object: &mut Value, key: &str) -> (r: Value)
    requires
        json_of(*old(object)).entry(key@) is Some,
    ensures
        json_of(*old(object)).entry(key@) == Some(json_of(r)),
        json_of(*final(object)) == json_of(*old(object)).with(key@, Json::Null),
{
    object[key].take()
}

/// Trusts the fields of `Value::Array`: the values of an array, in order.
#[verifier::external_body]
pub(crate) fn into_items(array: Value) -> (r: Vec<Value>)
    requires
        json_of(array) is Array,
    ensures
        json_of(array) == Json::Array(jsons_of(r@)),
{
    match array {
        Value::Array(items) => items,
        _ => Vec::new(),
    }
}

// ---------------------------------------------------------------------------
// Reading and building
// ---------------------------------------------------------------------------

/// The text under `key`.
pub(crate) fn text_at(value: &Value, key: &str) -> (r: Option<String>)
    ensures
        r.deep_view() == json_of(*value).text_at(key@),
{
    match get(value, key) {
        Some(v) => match as_text(v) {
            Some(s) => Some(s.to_owned()),
            None => None,
        },
        None => None,
    }
}

/// The text under `inner` in the entry under `outer`.
pub(crate) fn text_within(value: &Value, outer: &str, inner: &str) -> (r: Option<String>)
    ensures
        r.deep_view() == json_of(*value).text_within(outer@, inner@),
{
    match get(value, outer) {
        Some(v) => text_at(v, inner),
        None => None,
    }
}

/// A decimal number as a value.
pub(crate) fn decimal(d: &Decimal) -> (r: Value)
    ensures
        json_of(r) == Json::decimal(*d),
        json_of(r) is Number,
{
    assert(exists|e: Decimal|
        d.fractional_notation() == #[trigger] e.fractional_notation()) by {
        assert(d.fractional_notation() == d.fractional_notation());
    }
    match parse(&d.to_fractional_text()) {
        Ok(v) => v,
        Err(_) => null(),
    }
}

/// Puts the text under `key`.
pub(crate) fn put_text(object: &mut Value, key: &str, s: &str)
    requires
        json_of(*old(object)) is Object,
    ensures
        json_of(*final(object)) == json_of(*old(object)).with(key@, Json::Text(s@)),
{
    put(object, key, self::text(s));
}

/// Puts the text, where there is one, under `key`.
pub(crate) fn put_text_option(object: &mut Value, key: &str, s: &Option<String>)
    requires
        json_of(*old(object)) is Object,
    ensures
        json_of(*final(object)) == json_of(*old(object)).with_option(
            key@,
            Json::text_option(s.deep_view()),
        ),
{
    if let Some(t) = s {
        put(object, key, self::text(t));
    }
}

/// An entry that is put into an object stands under its key, and the entries under
/// all other keys stay; an absent one changes nothing.
pub proof fn law_entries_of_an_object(j: Json, key: Seq<char>, value: Json, other: Seq<char>)
    requires
        j is Object,
    ensures
        j.with(key, value) is Object,
        j.with(key, value).entry(key) == Some(value),
        other != key ==> j.with(key, value).entry(other) == j.entry(other),
        j.with_option(key, Some(value)) == j.with(key, value),
        j.with_option(key, None) == j,
        Json::empty() is Object,
        Json::empty().entry(other) is None,
{
}

/// What was read is the document of the value, or what is said of the failure; and the
/// documents of values are theirs, in order.
pub proof fn law_what_was_read(r: Result<Value, String>, values: Seq<Value>)
    ensures
        r matches Ok(v) ==> reading(r) == Ok::<Json, Seq<char>>(json_of(v)),
        r matches Err(e) ==> reading(r) == Err::<Json, Seq<char>>(e@),
        jsons_of(values).len() == values.len(),
        forall|i: int|
            0 <= i < values.len() ==> (#[trigger] jsons_of(values)[i]) == json_of(values[i]),
{
}

/// A text is found under its key, and inside the entry that holds it; what is no text is
/// not taken for one.
pub proof fn law_texts_in_documents(j: Json, outer: Seq<char>, inner: Seq<char>, s: Seq<char>)
    ensures
        j.text_at(inner) == Some(s) <==> j.entry(inner) == Some(Json::Text(s)),
        j.text_within(outer, inner) == Some(s) <==> exists|k: Json|
            j.entry(outer) == Some(k) && #[trigger] k.entry(inner) == Some(Json::Text(s)),
        Json::text_option(Some(s)) == Some(Json::Text(s)),
        Json::text_option(None) is None,
{
}

/// A decimal number is written with a point and read by the JSON reader.
pub proof fn law_numbers_in_documents(d: Decimal, n: nat)
    ensures
        json_parsed(d.fractional_notation()) matches Ok(j) ==> Json::decimal(d) == j,
        Json::integer(n) == Json::Number(text::decimal(n)),
{
}

} // verus!
