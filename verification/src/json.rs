//! JSON values of `serde_json`, and what the library says of them.
use serde_json::Value;
use vstd::prelude::*;

use crate::error::{BridgeError, BridgeErrorView};

verus! {

/// `serde_json::Value`, opaque to proofs: [`json_of`] says what one holds.
#[verifier::external_type_specification]
#[verifier::external_body]
pub struct ExValue(Value);

/// `serde_json::Map`, opaque to proofs: [`entries_of`] says what one holds.
#[verifier::external_type_specification]
#[verifier::external_body]
#[verifier::reject_recursive_types(K)]
#[verifier::reject_recursive_types(V)]
pub struct ExObject<K, V>(serde_json::Map<K, V>);

/// A JSON object: keys that are text, each with a value.
pub type JsonObject = serde_json::Map<String, Value>;

/// What a JSON value is.
pub enum JsonView {
    Null,
    Bool(bool),
    Integer(int),
    /// The bit pattern of a number that is not held as an integer.
    Float(u64),
    Text(Seq<char>),
    Array(Seq<JsonView>),
    Object(Map<Seq<char>, JsonView>),
}

/// What a `serde_json::Value` holds.
pub uninterp spec fn json_of(value: Value) -> JsonView;

/// What a `serde_json::Map` holds: the value under each key.
pub uninterp spec fn entries_of(object: JsonObject) -> Map<Seq<char>, JsonView>;

/// What `serde_json::to_string` writes of a value: compact JSON, the keys of
/// an object in their own order.
pub uninterp spec fn json_text(json: JsonView) -> Seq<char>;

/// `Clone` of `serde_json::Value`: the copy holds what the value holds.
pub assume_specification[ <Value as Clone>::clone ](value: &Value) -> (copy: Value)
    ensures
        json_of(copy) == json_of(*value),
;

/// What a list of values holds.
pub open spec fn json_items(values: Seq<Value>) -> Seq<JsonView> {
    Seq::new(values.len(), |i: int| json_of(values[i]))
}

/// What an object without keys holds.
pub open spec fn no_entries() -> Map<Seq<char>, JsonView> {
    Map::empty()
}

/// A text, or null for none.
pub open spec fn text_or_null(text: Option<Seq<char>>) -> JsonView {
    match text {
        Some(text) => JsonView::Text(text),
        None => JsonView::Null,
    }
}

/// `Value::Null` of `serde_json`.
#[verifier::external_body]
pub(crate) fn json_null() -> (value: Value)
    ensures
        json_of(value) == JsonView::Null,
{
    Value::Null
}

/// `Value::String` of `serde_json`: the value is the text.
#[verifier::external_body]
pub(crate) fn json_string(text: String) -> (value: Value)
    ensures
        json_of(value) == JsonView::Text(text@),
{
    Value::String(text)
}

/// `Value::from` of `serde_json` for `u64`: the value is the number.
#[verifier::external_body]
pub(crate) fn json_number(n: u64) -> (value: Value)
    ensures
        json_of(value) == JsonView::Integer(n as int),
{
    Value::from(n)
}

/// `Value::Array` of `serde_json`: the value is the list of the items.
#[verifier::external_body]
pub(crate) fn json_array(items: Vec<Value>) -> (value: Value)
    ensures
        json_of(value) == JsonView::Array(json_items(items@)),
{
    Value::Array(items)
}

/// `Value::Object` of `serde_json`: the value is the object.
#[verifier::external_body]
pub(crate) fn json_object(object: JsonObject) -> (value: Value)
    ensures
        json_of(value) == JsonView::Object(entries_of(object)),
{
    Value::Object(object)
}

/// `Map::new` of `serde_json`: the object has no keys.
#[verifier::external_body]
pub(crate) fn object_new() -> (object: JsonObject)
    ensures
        entries_of(object) == no_entries(),
{
    serde_json::Map::new()
}

/// `Map::insert` of `serde_json`: the key has the value, in place of one that
/// it had; the other keys keep theirs.
#[verifier::external_body]
pub(crate) fn object_insert(object: &mut JsonObject, key: &str, value: Value)
    ensures
        entries_of(*final(object)) == entries_of(*old(object)).insert(key@, json_of(value)),
{
    object.insert(key.to_owned(), value);
}

/// Takes the object out of a `Value::Object` of `serde_json`, and hands back
/// any other value as it is.
#[verifier::external_body]
pub(crate) fn into_object(value: Value) -> (object: Result<JsonObject, Value>)
    ensures
        match object {
            Ok(object) => json_of(value) == JsonView::Object(entries_of(object)),
            Err(other) => json_of(other) == json_of(value) && !(json_of(value) is Object),
        },
{
    match value {
        Value::Object(object) => Ok(object),
        other => Err(other),
    }
}

/// Calls `serde_json::to_string`, which cannot fail on a `Value`: its keys
/// are text. A `Value` is displayed as the same text. The name [`json_text`]
/// stands for it.
#[verifier::external_body]
pub(crate) fn value_text(value: &Value) -> (text: String)
    ensures
        text@ == json_text(json_of(*value)),
{
    serde_json::to_string(value).expect("a JSON value serializes")
}

/// A value as an object: an error for a value that is none.
pub open spec fn object_verdict(json: JsonView) -> Result<
    Map<Seq<char>, JsonView>,
    BridgeErrorView,
> {
    match json {
        JsonView::Object(entries) => Ok(entries),
        _ => Err(
            BridgeErrorView::InvalidAnthropicRequest(
                "expected JSON object but received "@ + json_text(json),
            ),
        ),
    }
}

/// The error for a value that is no object, given its text.
pub fn not_an_object(received: &str) -> (error: BridgeError)
    ensures
        error@ == BridgeErrorView::InvalidAnthropicRequest(
            "expected JSON object but received "@ + received@,
        ),
{
    let mut text = "expected JSON object but received ".to_owned();
    text.append(received);
    BridgeError::InvalidAnthropicRequest(text)
}

/// A value as an object: an error for a value that is none.
pub fn value_to_object(value: Value) -> (object: Result<JsonObject, BridgeError>)
    ensures
        match object_verdict(json_of(value)) {
            Ok(entries) => object matches Ok(o) && entries_of(o) == entries,
            Err(error) => object matches Err(e) && e@ == error,
        },
{
    match into_object(value) {
        Ok(object) => Ok(object),
        Err(other) => Err(not_an_object(value_text(&other).as_str())),
    }
}

/// A value is an object exactly if it has entries, and they are those of the
/// object. Any other value is refused with its text.
pub proof fn object_keeps_its_entries(json: JsonView)
    ensures
        match object_verdict(json) {
            Ok(entries) => json == JsonView::Object(entries),
            Err(error) => {
                &&& !(json is Object)
                &&& error == BridgeErrorView::InvalidAnthropicRequest(
                    "expected JSON object but received "@ + json_text(json),
                )
            },
        },
{
}

/// A text is told from none, and from every other text.
pub proof fn text_or_null_tells_text(a: Option<Seq<char>>, b: Option<Seq<char>>)
    ensures
        text_or_null(a) == text_or_null(b) ==> a == b,
        text_or_null(a) is Null <==> a is None,
        a matches Some(text) ==> text_or_null(a) == JsonView::Text(text),
{
}

} // verus!
