//! JSON text, read and written by `serde_json`.
use serde_json::Value;
use vstd::prelude::*;

use crate::json::{Json, JsonView, Number};
use crate::text::opt_view;

verus! {

/// `serde_json::Value`, carried between the conversions below.
#[verifier::external_type_specification]
#[verifier::external_body]
pub struct ExValue(serde_json::Value);

/// What `serde_json::from_str` reads from a text; nothing where the text is not JSON.
pub uninterp spec fn parsed_json(text: Seq<char>) -> Option<JsonView>;

/// The compact text that `serde_json` prints for a value.
pub uninterp spec fn json_text(value: JsonView) -> Seq<char>;

/// A `serde_json::Value` as a [`Json`]: variant by variant, members in the
/// order in which its map hands them out. Nothing is claimed of it by itself.
#[verifier::external_body]
fn from_value(value: Value) -> Json {
    match value {
        Value::Null => Json::Null,
        Value::Bool(b) => Json::Bool(b),
        Value::Number(n) => match (n.as_u64(), n.as_i64()) {
            (Some(u), _) => Json::Number(Number::PosInt(u)),
            (None, Some(i)) => Json::Number(Number::NegInt(i)),
            (None, None) => Json::Number(Number::Float(n.to_string())),
        },
        Value::String(s) => Json::String(s),
        Value::Array(items) => Json::Array(items.into_iter().map(from_value).collect()),
        Value::Object(map) => Json::Object(map.into_iter().map(|(k, v)| (k, from_value(v))).collect()),
    }
}

/// A [`Json`] as a `serde_json::Value`: variant by variant, members put into
/// its map in order, and a number that is no integer read by `str::parse`, which
/// takes the printed text of a number back to that number. Nothing is claimed of
/// it by itself.
#[verifier::external_body]
fn to_value(json: &Json) -> Value {
    match json {
        Json::Null => Value::Null,
        Json::Bool(b) => Value::Bool(*b),
        Json::Number(Number::PosInt(n)) => Value::from(*n),
        Json::Number(Number::NegInt(n)) => Value::from(*n),
        Json::Number(Number::Float(text)) => text
            .parse()
            .ok()
            .and_then(serde_json::Number::from_f64)
            .map_or(Value::Null, Value::Number),
        Json::String(s) => Value::from(s.as_str()),
        Json::Array(items) => items.iter().map(to_value).collect(),
        Json::Object(entries) => entries.iter().map(|e| (e.0.clone(), to_value(&e.1))).collect(),
    }
}

/// `serde_json::from_str` on a whole text, with its result converted. The
/// contract claims only that the result depends on the text alone.
#[verifier::external_body]
pub(crate) fn parse_json(text: &str) -> (r: Option<Json>)
    ensures
        opt_view(r) == parsed_json(text@),
{
    serde_json::from_str::<Value>(text).ok().map(from_value)
}

/// `serde_json::Value::to_string`, which prints compact JSON. The contract
/// claims only that the text depends on the value alone.
#[verifier::external_body]
pub(crate) fn print_json(json: &Json) -> (r: String)
    ensures
        r@ == json_text(json@),
{
    to_value(json).to_string()
}

/// Reads a JSON text.
pub fn parse(text: &str) -> (r: Option<Json>)
    ensures
        opt_view(r) == parsed_json(text@),
{
    parse_json(text)
}

} // verus!
