//! JSON documents as parsed by `serde_json`, held as plain values.
use vstd::prelude::*;

verus! {

/// A JSON number read the three ways the feature readers ask for it: as an
/// `i64` and as a `u64` when it is one, and as the bit pattern of the `f64`
/// it reads as.
pub struct JsonNumber {
    pub as_i64: Option<i64>,
    pub as_u64: Option<u64>,
    pub f64_bits: Option<u64>,
}

/// A JSON value. An object lists its members once each, by key.
pub enum JsonValue {
    Null,
    Bool(bool),
    Number(JsonNumber),
    Text(String),
    Array(Vec<JsonValue>),
    Object(Vec<(String, JsonValue)>),
}

/// `serde_json::Value`, carried through the conversion only.
#[verifier::external_type_specification]
#[verifier::external_body]
pub struct ExJsonValue(serde_json::Value);

/// The value `serde_json` parses a text to, or nothing when the text is not
/// JSON.
pub uninterp spec fn json_document(text: Seq<char>) -> Option<JsonValue>;

/// Parses `text` with `serde_json::from_str::<serde_json::Value>` and holds
/// the result as a [`JsonValue`] (see [`json_tree`]). The contract only names
/// the result: a parse error gives `None`, a parsed document
/// [`json_document`] of the same text.
#[verifier::external_body]
pub(crate) fn parse_json(text: &str) -> (r: Option<JsonValue>)
    ensures
        r == json_document(text@),
{
    let value: serde_json::Value = serde_json::from_str(text).ok()?;
    Some(json_tree(value))
}

/// The conversion half of [`parse_json`]: each `serde_json::Value` variant
/// becomes the variant of the same name, member for member; a number keeps
/// what `as_i64`, `as_u64` and `as_f64` give. Nothing is claimed of it on
/// its own; [`parse_json`]'s contract covers the parse and this conversion.
#[verifier::external_body]
fn json_tree(value: serde_json::Value) -> JsonValue {
    match value {
        serde_json::Value::Null => JsonValue::Null,
        serde_json::Value::Bool(b) => JsonValue::Bool(b),
        serde_json::Value::Number(n) => JsonValue::Number(
            JsonNumber { as_i64: n.as_i64(), as_u64: n.as_u64(), f64_bits: n.as_f64().map(|x| x.to_bits()) },
        ),
        serde_json::Value::String(s) => JsonValue::Text(s),
        serde_json::Value::Array(a) => JsonValue::Array(a.into_iter().map(json_tree).collect()),
        serde_json::Value::Object(m) => JsonValue::Object(m.into_iter().map(|(k, v)| (k, json_tree(v))).collect()),
    }
}

} // verus!
