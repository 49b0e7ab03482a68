//! The boundary with serde_json: parsing a text into the value model and
//! serializing the value model back to text, pretty or minified.
//!
//! Each call is wrapped in one trusted function whose contract relates the
//! call's result to a named specification-level function of the inputs alone.
//! Everything that is proved about the parse/format pipeline rests on these
//! contracts.

use vstd::prelude::*;

use crate::value::Json;
use crate::value::JsonV;

verus! {

#[verifier::external_type_specification]
#[verifier::external_body]
pub struct ExValue(serde_json::Value);

/// What parsing a text yields: the document the text denotes, or the
/// parser's diagnostic.  The result of `serde_json::from_str` depends on the
/// text alone, so it can be given a name; nothing further is assumed of it.
pub uninterp spec fn parse_of(s: Seq<char>) -> Result<JsonV, Seq<char>>;

/// The pretty-printed rendering of a document (or the serializer's
/// diagnostic, never seen in normal operation).  The result of
/// `serde_json::to_string_pretty` depends on the value alone.
pub uninterp spec fn fmt_pretty(j: JsonV) -> Result<Seq<char>, Seq<char>>;

/// The minified rendering of a document, named like `fmt_pretty` for the
/// result of `serde_json::to_string`.
pub uninterp spec fn fmt_mini(j: JsonV) -> Result<Seq<char>, Seq<char>>;

/// Converts a parsed `serde_json::Value` into the value model, one variant
/// at a time; a number becomes its decimal literal text, as printed by
/// `serde_json::Number`'s own formatter.  Only the wrappers below call this.
#[verifier::external_body]
fn json_of_value(v: serde_json::Value) -> Json {
    match v {
        serde_json::Value::Null => Json::Null,
        serde_json::Value::Bool(b) => Json::Bool(b),
        serde_json::Value::Number(n) => Json::Num(n.to_string()),
        serde_json::Value::String(s) => Json::Str(s),
        serde_json::Value::Array(a) => Json::Arr(a.into_iter().map(json_of_value).collect()),
        serde_json::Value::Object(o) => Json::Obj(
            o.into_iter().map(|(k, w)| (k, json_of_value(w))).collect(),
        ),
    }
}

/// Converts a value of the model back into a `serde_json::Value` for
/// serialization.  A number literal is re-read by serde_json's own number
/// parser; a literal it cannot hold (out of double range, which parsing can
/// never produce) falls back to null rather than panic.  Only the wrappers
/// below call this.
#[verifier::external_body]
fn value_of_json(j: &Json) -> serde_json::Value {
    match j {
        Json::Null => serde_json::Value::Null,
        Json::Bool(b) => serde_json::Value::Bool(*b),
        Json::Num(s) => match s.parse::<serde_json::Number>() {
            Ok(n) => serde_json::Value::Number(n),
            Err(_) => serde_json::Value::Null,
        },
        Json::Str(s) => serde_json::Value::String(s.clone()),
        Json::Arr(a) => serde_json::Value::Array(a.iter().map(value_of_json).collect()),
        Json::Obj(o) => serde_json::Value::Object(
            o.iter().map(|(k, w)| (k.clone(), value_of_json(w))).collect(),
        ),
    }
}

/// Relies on `serde_json::from_str`: whether a text parses, the value it
/// parses to, and the diagnostic when it does not, are functions of the text
/// alone; `parse_of` names that function.
#[verifier::external_body]
pub(crate) fn parse_json_text(s: &str) -> (r: Result<Json, String>)
    ensures
        (match r {
            Ok(j) => parse_of(s@) matches Ok(v) && j@ == v,
            Err(m) => parse_of(s@) matches Err(d) && m@ == d,
        }),
{
    match serde_json::from_str::<serde_json::Value>(s) {
        Ok(v) => Ok(json_of_value(v)),
        Err(e) => Err(e.to_string()),
    }
}

/// Relies on `serde_json::to_string_pretty`: the rendering is a function of
/// the serialized value alone; `fmt_pretty` names that function.
#[verifier::external_body]
pub(crate) fn pretty_json_text(j: &Json) -> (r: Result<String, String>)
    ensures
        (match r {
            Ok(t) => fmt_pretty(j@) matches Ok(v) && t@ == v,
            Err(m) => fmt_pretty(j@) matches Err(d) && m@ == d,
        }),
{
    match serde_json::to_string_pretty(&value_of_json(j)) {
        Ok(t) => Ok(t),
        Err(e) => Err(e.to_string()),
    }
}

/// Relies on `serde_json::to_string`: the rendering is a function of the
/// serialized value alone; `fmt_mini` names that function.
#[verifier::external_body]
pub(crate) fn mini_json_text(j: &Json) -> (r: Result<String, String>)
    ensures
        (match r {
            Ok(t) => fmt_mini(j@) matches Ok(v) && t@ == v,
            Err(m) => fmt_mini(j@) matches Err(d) && m@ == d,
        }),
{
    match serde_json::to_string(&value_of_json(j)) {
        Ok(t) => Ok(t),
        Err(e) => Err(e.to_string()),
    }
}

} // verus!
