//! Trusted boundary to `serde_json`: text to [`JsonValue`] and back.
//!
//! Parsing and rendering of JSON text is the one part of the JSON handling
//! this crate does not verify; both directions are named spec functions of
//! their input alone, so every verified caller sees a deterministic codec.

use vstd::prelude::*;

use crate::json::JsonValue;

verus! {

use crate::json::JsonSpec;

/// `serde_json`'s value type, opaque to the verifier; it only passes
/// between the conversion helpers below.
#[verifier::external_type_specification]
#[verifier::external_body]
pub struct ExSerdeValue(serde_json::Value);

/// What `serde_json` parses a line of text into, lifted into the value
/// model (`None` on malformed text).
pub uninterp spec fn json_parsed(s: Seq<char>) -> Option<JsonSpec>;

/// The compact text `serde_json` renders a value as.
pub uninterp spec fn json_compact(v: JsonSpec) -> Seq<char>;

/// The pretty-printed text `serde_json` renders a value as.
pub uninterp spec fn json_pretty(v: JsonSpec) -> Seq<char>;

/// Relies on `serde_json::from_str::<Value>`: the parse depends on the text
/// alone; object keys come out unique; the result is lifted one variant to
/// one variant.
#[verifier::external_body]
fn parse_json_raw(s: &str) -> (r: Option<JsonValue>)
    ensures
        match r {
            Some(v) => json_parsed(s@) == Some(v@),
            None => json_parsed(s@) is None,
        },
{
    serde_json::from_str::<serde_json::Value>(s).ok().map(lift_value)
}

/// Relies on `serde_json::Value`'s variant shape: each variant moves to the
/// same variant of [`JsonValue`], numbers as their rendered text.
#[verifier::external_body]
fn lift_value(v: serde_json::Value) -> JsonValue {
    match v {
        serde_json::Value::Null => JsonValue::Null,
        serde_json::Value::Bool(b) => JsonValue::Bool(b),
        serde_json::Value::Number(n) => JsonValue::Num(n.to_string()),
        serde_json::Value::String(s) => JsonValue::Str(s),
        serde_json::Value::Array(items) => JsonValue::Arr(
            items.into_iter().map(lift_value).collect(),
        ),
        serde_json::Value::Object(map) => JsonValue::Obj(
            map.into_iter().map(|(k, inner)| (k, lift_value(inner))).collect(),
        ),
    }
}

/// Relies on `serde_json::Value` construction: each variant moves to the
/// same variant, number text parsed back into a JSON number.
#[verifier::external_body]
fn lower_value(v: &JsonValue) -> serde_json::Value {
    match v {
        JsonValue::Null => serde_json::Value::Null,
        JsonValue::Bool(b) => serde_json::Value::Bool(*b),
        JsonValue::Num(s) => match s.parse::<serde_json::Number>() {
            Ok(n) => serde_json::Value::Number(n),
            Err(_) => serde_json::Value::String(s.clone()),
        },
        JsonValue::Str(s) => serde_json::Value::String(s.clone()),
        JsonValue::Arr(items) => serde_json::Value::Array(items.iter().map(lower_value).collect()),
        JsonValue::Obj(entries) => serde_json::Value::Object(
            entries.iter().map(|e| (e.0.clone(), lower_value(&e.1))).collect(),
        ),
    }
}

/// Relies on `serde_json::to_string`: compact rendering, a pure function of
/// the value.
#[verifier::external_body]
fn render_compact(v: &JsonValue) -> (r: String)
    ensures
        r@ == json_compact(v@),
{
    serde_json::to_string(&lower_value(v)).unwrap_or_default()
}

/// Relies on `serde_json::to_string_pretty`: pretty rendering, a pure
/// function of the value.
#[verifier::external_body]
fn render_pretty(v: &JsonValue) -> (r: String)
    ensures
        r@ == json_pretty(v@),
{
    serde_json::to_string_pretty(&lower_value(v)).unwrap_or_default()
}

/// Parses one line of JSON text; `None` when the text is not JSON.
pub fn parse_json_line(s: &str) -> (r: Option<JsonValue>)
    ensures
        match r {
            Some(v) => json_parsed(s@) == Some(v@),
            None => json_parsed(s@) is None,
        },
{
    parse_json_raw(s)
}

/// Renders a value as one compact line of JSON text.
pub fn json_line_text(v: &JsonValue) -> (r: String)
    ensures
        r@ == json_compact(v@),
{
    render_compact(v)
}

/// Renders a value as pretty-printed JSON text, the canonical store format.
pub fn json_pretty_text(v: &JsonValue) -> (r: String)
    ensures
        r@ == json_pretty(v@),
{
    render_pretty(v)
}

} // verus!
