//! JSON values.
//!
//! Parsing, building and printing JSON is `serde_json`'s work. A
//! [`serde_json::Value`] is opaque to the verifier; what it holds is given by
//! [`json_view`], a tree of plain values, and each function below says what one
//! call into `serde_json` does to that tree.

use serde_json::Value;
use vstd::prelude::*;

verus! {

/// What a JSON value holds.
pub enum Json {
    /// `null`.
    Null,
    /// `true` or `false`.
    Bool(bool),
    /// A number, by the text it is printed as.
    Number(Seq<char>),
    /// A string, by its characters.
    String(Seq<char>),
    /// An array, by its items in order.
    Array(Seq<Json>),
    /// An object, by its fields; a key occurs once, and fields have no order.
    Object(Map<Seq<char>, Json>),
}

impl Json {
    /// The value of field `key`; `None` where it has none or is no object.
    pub open spec fn field(self, key: Seq<char>) -> Option<Json> {
        match self {
            Json::Object(fields) if fields.dom().contains(key) => Some(fields[key]),
            _ => None,
        }
    }

    /// The characters of a string; `None` of any other value.
    pub open spec fn text(self) -> Option<Seq<char>> {
        match self {
            Json::String(chars) => Some(chars),
            _ => None,
        }
    }

    /// The characters of the string in field `key`; `None` where there is no
    /// such field or it holds something else.
    pub open spec fn text_field(self, key: Seq<char>) -> Option<Seq<char>> {
        match self.field(key) {
            Some(value) => value.text(),
            None => None,
        }
    }
}

/// The tree that an optional value holds.
pub open spec fn opt_json(value: Option<&Value>) -> Option<Json> {
    match value {
        Some(v) => Some(json_view(*v)),
        None => None,
    }
}

/// The fields that a list of entries makes, each key with its value. It is meant
/// for entries whose keys all differ, where their order does not count.
pub open spec fn fields_of(entries: Seq<(String, Value)>) -> Map<Seq<char>, Json>
    decreases entries.len(),
{
    if entries.len() == 0 {
        Map::empty()
    } else {
        fields_of(entries.drop_last()).insert(entries.last().0@, json_view(entries.last().1))
    }
}

/// `serde_json::Value`, carried as an opaque value.
#[verifier::external_type_specification]
#[verifier::external_body]
pub struct ExValue(serde_json::Value);

/// What a `serde_json::Value` holds.
pub uninterp spec fn json_view(value: Value) -> Json;

/// What `serde_json::from_slice` reads from bytes; `None` where it fails.
pub uninterp spec fn json_of_bytes(bytes: Seq<u8>) -> Option<Json>;

/// What `serde_json::from_str` reads from a text; `None` where it fails.
pub uninterp spec fn json_of_text(text: Seq<char>) -> Option<Json>;

/// The bytes that `serde_json::to_vec` prints a value as; `None` where it fails.
pub uninterp spec fn json_encoding(value: Json) -> Option<Seq<u8>>;

/// Calls `serde_json::from_slice::<Value>`. Claimed: whether it succeeds, and
/// what the value then holds, depends on the bytes alone. Which bytes stand for
/// which value is left to `serde_json`.
#[verifier::external_body]
pub(crate) fn parse_bytes(bytes: &[u8]) -> (r: Option<Value>)
    ensures
        match r {
            Some(value) => json_of_bytes(bytes@) == Some(json_view(value)),
            None => json_of_bytes(bytes@) is None,
        },
{
    serde_json::from_slice::<Value>(bytes).ok()
}

/// Calls `serde_json::from_str::<Value>`. Claimed: whether it succeeds, and
/// what the value then holds, depends on the text alone. Which text stands for
/// which value is left to `serde_json`.
#[verifier::external_body]
pub(crate) fn parse_text(text: &str) -> (r: Option<Value>)
    ensures
        match r {
            Some(value) => json_of_text(text@) == Some(json_view(value)),
            None => json_of_text(text@) is None,
        },
{
    serde_json::from_str::<Value>(text).ok()
}

/// Calls `serde_json::to_vec`. Claimed: whether it succeeds, and the bytes it
/// then returns, depend only on what the value holds; the order in which fields
/// were added to an object does not count, since with the features in use an
/// object keeps its fields sorted by key. Which bytes a value is printed as is
/// left to `serde_json`.
#[verifier::external_body]
pub(crate) fn encode(value: &Value) -> (r: Option<Vec<u8>>)
    ensures
        match r {
            Some(bytes) => json_encoding(json_view(*value)) == Some(bytes@),
            None => json_encoding(json_view(*value)) is None,
        },
{
    serde_json::to_vec(value).ok()
}

/// Calls `serde_json::Value::get` with a string key. Claimed: it returns the
/// value of that field, and `None` where the value is no object or lacks it.
#[verifier::external_body]
pub(crate) fn get<'a>(value: &'a Value, key: &str) -> (r: Option<&'a Value>)
    ensures
        opt_json(r) == json_view(*value).field(key@),
{
    value.get(key)
}

/// `serde_json::Value::as_str`. Claimed: it returns the characters of a JSON
/// string, and `None` of any other value.
pub assume_specification[ serde_json::Value::as_str ](value: &Value) -> (r: Option<&str>)
    ensures
        crate::text::opt_str(r) == json_view(*value).text(),
;

/// `serde_json::Value::clone`. Claimed: the copy holds what the original holds.
pub assume_specification[ <serde_json::Value as Clone>::clone ](value: &Value) -> (r: Value)
    ensures
        json_view(r) == json_view(*value),
;

/// Calls the constructor `serde_json::Value::String`. Claimed: the value is the
/// JSON string with the given characters.
#[verifier::external_body]
pub(crate) fn string_value(text: String) -> (r: Value)
    ensures
        json_view(r) == Json::String(text@),
{
    Value::String(text)
}

/// Calls `serde_json::Value::from_iter` on a list of entries whose keys all
/// differ. Claimed: the value is the JSON object with those fields. Which of two
/// entries with one key would be kept is left unsaid, so such a list is not
/// admitted.
#[verifier::external_body]
pub(crate) fn object_value(entries: Vec<(String, Value)>) -> (r: Value)
    requires
        forall|i: int, j: int|
            0 <= i < j < entries@.len() ==> (#[trigger] entries@[i]).0@ != (
            #[trigger] entries@[j]).0@,
    ensures
        json_view(r) == Json::Object(fields_of(entries@)),
{
    Value::from_iter(entries)
}

/// The string in field `key` of an object; `None` where there is no such field
/// or it holds something else.
pub fn text_field<'a>(value: &'a Value, key: &str) -> (r: Option<&'a str>)
    ensures
        crate::text::opt_str(r) == json_view(*value).text_field(key@),
{
    match get(value, key) {
        Some(field) => field.as_str(),
        None => None,
    }
}

/// A field is read by its key, and its text only where it holds a string.
pub proof fn fields_are_read_by_key(
    value: Json,
    key: Seq<char>,
    held: Json,
    text: Seq<char>,
    found: Option<&Value>,
)
    ensures
        found is None ==> opt_json(found) is None,
        found is Some ==> opt_json(found) == Some(json_view(*found->0)),
        value.field(key) == Some(held) <==> (value matches Json::Object(fields)
            && fields.dom().contains(key) && fields[key] == held),
        value.text() == Some(text) <==> value == Json::String(text),
        value.text_field(key) == Some(text) <==> (value matches Json::Object(fields)
            && fields.dom().contains(key) && fields[key] == Json::String(text)),
{
}

} // verus!
