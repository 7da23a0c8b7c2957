//! JSON written out for display, as `serde_json::to_string_pretty` writes it.

use vstd::prelude::*;

use crate::rollout::json::{json_view, JsonData, JsonValue};

verus! {

/// What `serde_json::to_string_pretty` writes for a value, turned into a
/// `serde_json::Value` as `value_to_serde` does: its text with two spaces of
/// indentation per level, or nothing when it fails. A number whose text
/// serde_json does not read, which no parsed document holds, is written as
/// `null`.
pub uninterp spec fn json_pretty_text(v: JsonData) -> Option<Seq<char>>;

/// Turns a value into a `serde_json::Value`, variant by variant; a number
/// whose text serde_json does not read becomes `null`.
#[verifier::external_body]
fn value_to_serde(v: &JsonValue) -> serde_json::Value {
    match v {
        JsonValue::Null => serde_json::Value::Null,
        JsonValue::Bool(b) => serde_json::Value::Bool(*b),
        JsonValue::Number(n) => match n.text.parse::<serde_json::Number>() {
            Ok(x) => serde_json::Value::Number(x),
            Err(_) => serde_json::Value::Null,
        },
        JsonValue::String(s) => serde_json::Value::String(s.clone()),
        JsonValue::Array(items) => serde_json::Value::Array(items.iter().map(value_to_serde).collect()),
        JsonValue::Object(members) => serde_json::Value::Object(
            members.iter().map(|(k, m)| (k.clone(), value_to_serde(m))).collect(),
        ),
    }
}

/// Calls `serde_json::to_string_pretty` on the value; its result is named
/// `json_pretty_text`.
#[verifier::external_body]
pub(crate) fn pretty_json(v: &JsonValue) -> (r: Option<String>)
    ensures
        r is None <==> json_pretty_text(json_view(*v)) is None,
        r matches Some(t) ==> json_pretty_text(json_view(*v)) == Some(t@),
{
    serde_json::to_string_pretty(&value_to_serde(v)).ok()
}

} // verus!
