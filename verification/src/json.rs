//! The kinds of JSON values, and the kind of the value that a text holds.

use vstd::prelude::*;

verus! {

/// The kinds of JSON values.
#[derive(Clone, Copy, Debug, PartialEq, Eq, Structural)]
pub enum JsonKind {
    Null,
    Bool,
    Number,
    String,
    Array,
    Object,
}

/// The error with which `serde_json` refuses a text.
#[verifier::external_type_specification]
#[verifier::external_body]
pub struct ExJsonError(serde_json::Error);

/// The kind of the JSON value that `serde_json` reads from a text; `None`
/// where it refuses the text.
pub uninterp spec fn json_kind_of(text: Seq<char>) -> Option<JsonKind>;

/// The name by which SQL calls a kind of JSON value.
pub open spec fn kind_name(kind: JsonKind) -> Seq<char> {
    match kind {
        JsonKind::Null => "null"@,
        JsonKind::Bool => "boolean"@,
        JsonKind::Number => "number"@,
        JsonKind::String => "string"@,
        JsonKind::Array => "array"@,
        JsonKind::Object => "object"@,
    }
}

/// `serde_json::from_str` for a `serde_json::Value`: the text is read as one
/// JSON value. The contract names the kind of that value, or the refusal;
/// both depend on the text alone.
#[verifier::external_body]
pub(crate) fn read_json_kind(text: &str) -> (kind: Result<JsonKind, serde_json::Error>)
    ensures
        match kind {
            Ok(k) => json_kind_of(text@) == Some(k),
            Err(_) => json_kind_of(text@) is None,
        },
{
    match serde_json::from_str::<serde_json::Value>(text) {
        Ok(serde_json::Value::Null) => Ok(JsonKind::Null),
        Ok(serde_json::Value::Bool(_)) => Ok(JsonKind::Bool),
        Ok(serde_json::Value::Number(_)) => Ok(JsonKind::Number),
        Ok(serde_json::Value::String(_)) => Ok(JsonKind::String),
        Ok(serde_json::Value::Array(_)) => Ok(JsonKind::Array),
        Ok(serde_json::Value::Object(_)) => Ok(JsonKind::Object),
        Err(error) => Err(error),
    }
}

/// The name by which SQL calls the kind of a JSON value.
pub fn get_json_value_type(kind: JsonKind) -> (name: &'static str)
    ensures
        name@ == kind_name(kind),
{
    match kind {
        JsonKind::Null => "null",
        JsonKind::Bool => "boolean",
        JsonKind::Number => "number",
        JsonKind::String => "string",
        JsonKind::Array => "array",
        JsonKind::Object => "object",
    }
}

/// The kind of the JSON value that `text` holds, if it holds one.
pub fn json_kind(text: &str) -> (kind: Option<JsonKind>)
    ensures
        kind == json_kind_of(text@),
{
    match read_json_kind(text) {
        Ok(k) => Some(k),
        Err(_) => None,
    }
}

} // verus!
