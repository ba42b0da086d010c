//! JSON documents as plain values.
use crate::text;
use vstd::prelude::*;

verus! {

#[verifier::external_type_specification]
#[verifier::external_body]
pub struct ExJsonValue(serde_json::Value);

#[verifier::external_type_specification]
#[verifier::external_body]
pub struct ExJsonError(serde_json::Error);

/// A JSON value. A number is held by the smallest of the three forms that fits it; one that is no
/// integer by its text.
pub enum JsonValue {
    Null,
    Bool(bool),
    Unsigned(u64),
    Negative(i64),
    Float(String),
    Str(String),
    Array(Vec<JsonValue>),
    Object(Vec<(String, JsonValue)>),
}

/// A JSON value, with its objects as lists of entries.
pub ghost enum JsonV {
    Null,
    Bool(bool),
    Unsigned(u64),
    Negative(i64),
    Float(Seq<char>),
    Str(Seq<char>),
    Array(Seq<JsonV>),
    Object(Seq<(Seq<char>, JsonV)>),
}

/// The entries of an object.
pub type ObjectV = Seq<(Seq<char>, JsonV)>;

pub open spec fn json_view(v: JsonValue) -> JsonV
    decreases v,
{
    match v {
        JsonValue::Null => JsonV::Null,
        JsonValue::Bool(b) => JsonV::Bool(b),
        JsonValue::Unsigned(n) => JsonV::Unsigned(n),
        JsonValue::Negative(n) => JsonV::Negative(n),
        JsonValue::Float(s) => JsonV::Float(s@),
        JsonValue::Str(s) => JsonV::Str(s@),
        JsonValue::Array(a) => JsonV::Array(
            Seq::new(
                a@.len(),
                |i: int|
                    if 0 <= i < a@.len() {
                        json_view(a@[i])
                    } else {
                        JsonV::Null
                    },
            ),
        ),
        JsonValue::Object(t) => JsonV::Object(
            Seq::new(
                t@.len(),
                |i: int|
                    if 0 <= i < t@.len() {
                        (t@[i].0@, json_view(t@[i].1))
                    } else {
                        (Seq::empty(), JsonV::Null)
                    },
            ),
        ),
    }
}

impl View for JsonValue {
    type V = JsonV;

    open spec fn view(&self) -> JsonV {
        json_view(*self)
    }
}

pub open spec fn array_view(a: Seq<JsonValue>) -> Seq<JsonV> {
    a.map_values(|v: JsonValue| v@)
}

pub open spec fn object_view(t: Seq<(String, JsonValue)>) -> ObjectV {
    t.map_values(|e: (String, JsonValue)| (e.0@, e.1@))
}

pub proof fn lemma_array_view(a: Vec<JsonValue>)
    ensures
        json_view(JsonValue::Array(a)) == JsonV::Array(array_view(a@)),
{
    assert(json_view(JsonValue::Array(a))->Array_0 =~= array_view(a@));
}

pub proof fn lemma_object_view(t: Vec<(String, JsonValue)>)
    ensures
        json_view(JsonValue::Object(t)) == JsonV::Object(object_view(t@)),
{
    assert(json_view(JsonValue::Object(t))->Object_0 =~= object_view(t@));
}

/// The value of a key.
pub open spec fn lookup(t: ObjectV, key: Seq<char>) -> Option<JsonV>
    decreases t.len(),
{
    if t.len() == 0 {
        None
    } else if t[0].0 == key {
        Some(t[0].1)
    } else {
        lookup(t.skip(1), key)
    }
}

/// The text that a key has, where it has one.
pub open spec fn text_at(t: ObjectV, key: Seq<char>) -> Option<Seq<char>> {
    match lookup(t, key) {
        Some(JsonV::Str(s)) => Some(s),
        _ => None,
    }
}

/// The integer that a key has, where it has one that fits 64 bits with a sign.
pub open spec fn integer_at(t: ObjectV, key: Seq<char>) -> Option<i64> {
    match lookup(t, key) {
        Some(JsonV::Unsigned(n)) => if n <= i64::MAX {
            Some(n as i64)
        } else {
            None
        },
        Some(JsonV::Negative(n)) => Some(n),
        _ => None,
    }
}

/// The integer without a sign that a key has, where it has one.
pub open spec fn unsigned_at(t: ObjectV, key: Seq<char>) -> Option<u64> {
    match lookup(t, key) {
        Some(JsonV::Unsigned(n)) => Some(n),
        Some(JsonV::Negative(n)) => if n >= 0 {
            Some(n as u64)
        } else {
            None
        },
        _ => None,
    }
}

/// The value of a key.
pub fn get<'a>(t: &'a Vec<(String, JsonValue)>, key: &str) -> (r: Option<&'a JsonValue>)
    ensures
        match r {
            Some(v) => lookup(object_view(t@), key@) == Some(v@),
            None => lookup(object_view(t@), key@) is None,
        },
{
    let ghost all = object_view(t@);
    let mut i: usize = 0;
    assert(all.skip(0) =~= all);
    while i < t.len()
        invariant
            i <= t@.len(),
            all == object_view(t@),
            lookup(all, key@) == lookup(all.skip(i as int), key@),
        decreases t@.len() - i,
    {
        assert(all.skip(i as int)[0] == all[i as int]);
        assert(all[i as int] == (t@[i as int].0@, t@[i as int].1@));
        if text::same(t[i].0.as_str(), key) {
            return Some(&t[i].1);
        }
        assert(all.skip(i as int).skip(1) =~= all.skip(i + 1));
        i = i + 1;
    }
    None
}

/// The text that a key has.
pub fn get_text(t: &Vec<(String, JsonValue)>, key: &str) -> (r: Option<String>)
    ensures
        text_at(object_view(t@), key@) == (match r {
            Some(s) => Some(s@),
            None => None,
        }),
{
    match get(t, key) {
        Some(JsonValue::Str(s)) => Some(s.clone()),
        _ => None,
    }
}

/// The integer that a key has.
pub fn get_integer(t: &Vec<(String, JsonValue)>, key: &str) -> (r: Option<i64>)
    ensures
        r == integer_at(object_view(t@), key@),
{
    match get(t, key) {
        Some(JsonValue::Unsigned(n)) => if *n <= 0x7fff_ffff_ffff_ffff {
            Some(*n as i64)
        } else {
            None
        },
        Some(JsonValue::Negative(n)) => Some(*n),
        _ => None,
    }
}

/// The integer without a sign that a key has.
pub fn get_unsigned(t: &Vec<(String, JsonValue)>, key: &str) -> (r: Option<u64>)
    ensures
        r == unsigned_at(object_view(t@), key@),
{
    match get(t, key) {
        Some(JsonValue::Unsigned(n)) => Some(*n),
        Some(JsonValue::Negative(n)) => if *n >= 0 {
            Some(*n as u64)
        } else {
            None
        },
        _ => None,
    }
}

/// Appends an entry to an object.
pub fn push_entry(t: &mut Vec<(String, JsonValue)>, key: &str, value: JsonValue)
    ensures
        object_view(final(t)@) == object_view(old(t)@).push((key@, value@)),
{
    let ghost before = object_view(t@);
    t.push((key.to_owned(), value));
    assert(object_view(t@) =~= before.push((key@, value@)));
}

/// The document that a text writes.
pub uninterp spec fn json_document(raw: Seq<char>) -> Option<JsonV>;

/// The text of a document on one line.
pub uninterp spec fn json_compact(v: JsonV) -> Seq<char>;

/// Takes a `serde_json::Value` apart, variant by variant; a number by `as_u64`, `as_i64` or its
/// `Display` text. Nothing is claimed of it here; what a document holds is claimed of
/// `parse_document`.
#[verifier::external_body]
fn from_json(v: serde_json::Value) -> JsonValue {
    match v {
        serde_json::Value::Null => JsonValue::Null,
        serde_json::Value::Bool(b) => JsonValue::Bool(b),
        serde_json::Value::Number(n) => match (n.as_u64(), n.as_i64()) {
            (Some(u), _) => JsonValue::Unsigned(u),
            (None, Some(i)) => JsonValue::Negative(i),
            (None, None) => JsonValue::Float(n.to_string()),
        },
        serde_json::Value::String(s) => JsonValue::Str(s),
        serde_json::Value::Array(a) => JsonValue::Array(a.into_iter().map(from_json).collect()),
        serde_json::Value::Object(t) =>
            JsonValue::Object(t.into_iter().map(|(k, v)| (k, from_json(v))).collect()),
    }
}

/// Builds a `serde_json::Value`, variant by variant. Nothing is claimed of it here; how a document
/// is written is claimed of `print_document`.
#[verifier::external_body]
fn to_json(v: &JsonValue) -> serde_json::Value {
    match v {
        JsonValue::Null => serde_json::Value::Null,
        JsonValue::Bool(b) => serde_json::Value::Bool(*b),
        JsonValue::Unsigned(n) => serde_json::Value::from(*n),
        JsonValue::Negative(n) => serde_json::Value::from(*n),
        JsonValue::Float(s) => serde_json::from_str(s).unwrap_or_default(),
        JsonValue::Str(s) => serde_json::Value::String(s.clone()),
        JsonValue::Array(a) => serde_json::Value::Array(a.iter().map(to_json).collect()),
        JsonValue::Object(t) =>
            serde_json::Value::Object(t.iter().map(|(k, v)| (k.clone(), to_json(v))).collect()),
    }
}

/// `serde_json::from_str` into a `serde_json::Value`: the document that the text writes, or an
/// error where it writes none. Which texts write which documents is left to the name.
#[verifier::external_body]
pub(crate) fn parse_document(raw: &str) -> (r: Result<JsonValue, serde_json::Error>)
    ensures
        match r {
            Ok(v) => json_document(raw@) == Some(v@),
            Err(_) => json_document(raw@) is None,
        },
{
    serde_json::from_str::<serde_json::Value>(raw).map(from_json)
}

/// `Display` of `serde_json::Value`: the document on one line. Which text that is, is left to the
/// name.
#[verifier::external_body]
pub(crate) fn print_document(v: &JsonValue) -> (r: String)
    ensures
        r@ == json_compact(v@),
{
    to_json(v).to_string()
}

/// The document that a text writes; nothing where it writes none.
pub fn read_document(raw: &str) -> (r: Option<JsonValue>)
    ensures
        json_document(raw@) == (match r {
            Some(v) => Some(v@),
            None => None,
        }),
{
    match parse_document(raw) {
        Ok(v) => Some(v),
        Err(_) => None,
    }
}

} // verus!
