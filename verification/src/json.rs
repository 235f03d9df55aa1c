//! JSON documents as the library reads them: `serde_json` parses the text,
//! and the value is carried over one for one into `JsonValue`.

use vstd::prelude::*;

verus! {

#[verifier::external_type_specification]
#[verifier::external_body]
pub struct ExJsonValue(serde_json::Value);

/// A JSON value. A number keeps the text `serde_json` writes for it; an
/// object keeps its members in the order `serde_json` holds them (sorted by
/// key, one member per key).
#[derive(Debug)]
pub enum JsonValue {
    Null,
    Bool(bool),
    Number(String),
    Str(String),
    Array(Vec<JsonValue>),
    Object(Vec<(String, JsonValue)>),
}

/// The value `serde_json` reads from the JSON text `text`, carried over into
/// `JsonValue`; `None` when `serde_json` rejects the text.
pub uninterp spec fn json_document(text: Seq<char>) -> Option<JsonValue>;

/// `serde_json::from_str` into a `serde_json::Value`, converted to
/// `JsonValue`. The value is the one `json_document` names for the text;
/// an error carries `serde_json`'s message, whose wording is left unsaid.
#[verifier::external_body]
pub(crate) fn parse_json(text: &str) -> (r: Result<JsonValue, String>)
    ensures
        match r {
            Ok(v) => json_document(text@) == Some(v),
            Err(_) => json_document(text@) is None,
        },
{
    serde_json::from_str::<serde_json::Value>(text).map(json_value_from).map_err(|e| e.to_string())
}

/// Carries a `serde_json::Value` over into `JsonValue`, variant by variant.
#[verifier::external_body]
fn json_value_from(v: serde_json::Value) -> JsonValue {
    match v {
        serde_json::Value::Null => JsonValue::Null,
        serde_json::Value::Bool(b) => JsonValue::Bool(b),
        serde_json::Value::Number(n) => JsonValue::Number(n.to_string()),
        serde_json::Value::String(s) => JsonValue::Str(s),
        serde_json::Value::Array(a) => JsonValue::Array(a.into_iter().map(json_value_from).collect()),
        serde_json::Value::Object(o) => JsonValue::Object(
            o.into_iter().map(|(k, x)| (k, json_value_from(x))).collect(),
        ),
    }
}

} // verus!
