//! The JSON codec: the trusted bridge between JSON text and [`Json`] values.
//!
//! Parsing and printing are done by serde_json; everything this crate assumes
//! about them is stated here, on the named results `spec_parse_json` and
//! `spec_pretty_text`.

use vstd::prelude::*;
use crate::json::Json;
use crate::json::JsonData;
use crate::json::canonical;
use crate::json::depth;

verus! {

/// The JSON document denoted by a piece of text, normalized into the codec's
/// form; `None` when the text is not valid JSON.
pub uninterp spec fn spec_parse_json(text: Seq<char>) -> Option<JsonData>;

/// The pretty-printed text of a JSON document.
pub uninterp spec fn spec_pretty_text(j: JsonData) -> Seq<char>;

/// Number texts the codec itself rendered: each parses back, by serde_json's
/// number parser, to a number that is neither a `u64` nor an `i64` and whose
/// rendering is the same text again. This rests on exact float parsing (the
/// `float_roundtrip` feature): the shortest rendering of a float reads back
/// as the very same float.
pub uninterp spec fn canonical_num_text(s: Seq<char>) -> bool;

/// serde_json's generic JSON value, declared so the conversions below can
/// name it; this crate never looks inside one.
#[verifier::external_type_specification]
#[verifier::external_body]
pub struct ExValue(serde_json::Value);

/// Converts a serde_json value into its normal form here, one node for one
/// node: integral numbers to `UInt`/`Int`, any other number to its rendered
/// text.
#[verifier::external_body]
fn value_to_json(v: serde_json::Value) -> Json {
    match v {
        serde_json::Value::Null => Json::Null,
        serde_json::Value::Bool(b) => Json::Bool(b),
        serde_json::Value::String(s) => Json::Str(s),
        serde_json::Value::Number(n) => match (n.as_u64(), n.as_i64()) {
            (Some(u), _) => Json::UInt(u),
            (_, Some(i)) => Json::Int(i),
            _ => Json::NumText(n.to_string()),
        },
        serde_json::Value::Array(a) => Json::Arr(a.into_iter().map(value_to_json).collect()),
        serde_json::Value::Object(m) => Json::Obj(
            m.into_iter().map(|(k, w)| (k, value_to_json(w))).collect(),
        ),
    }
}

/// Converts a [`Json`] value back into a serde_json value, one node for one
/// node: the inverse of `value_to_json` on canonical documents.
#[verifier::external_body]
fn json_to_value(j: &Json) -> serde_json::Value {
    match j {
        Json::Null => serde_json::Value::Null,
        Json::Bool(b) => serde_json::Value::Bool(*b),
        Json::Int(i) => serde_json::Value::from(*i),
        Json::UInt(u) => serde_json::Value::from(*u),
        Json::NumText(s) => s.parse::<serde_json::Number>().map(serde_json::Value::Number)
            .unwrap_or(serde_json::Value::Null),
        Json::Str(s) => serde_json::Value::String(s.clone()),
        Json::Arr(a) => serde_json::Value::Array(a.iter().map(json_to_value).collect()),
        Json::Obj(m) => serde_json::Value::Object(
            m.iter().map(|(k, w)| (k.clone(), json_to_value(w))).collect(),
        ),
    }
}

/// Relies on serde_json::from_str on a generic value: what JSON text denotes
/// is a function of the text alone, and the codec's normal form of it has
/// distinct keys and normalized numbers. The parser enforces a recursion
/// limit, so what it accepts is never nested more than 127 containers deep;
/// text it refuses — syntax errors and over-deep documents alike — yields
/// `None`.
#[verifier::external_body]
pub(crate) fn parse_json(text: &str) -> (r: Option<Json>)
    ensures
        match r {
            Some(j) => spec_parse_json(text@) == Some(j@) && canonical(j@) && depth(j@) <= 127,
            None => spec_parse_json(text@) is None,
        },
        r matches Some(j) && j@ matches JsonData::NumText(s) ==> canonical_num_text(s),
{
    serde_json::from_str::<serde_json::Value>(text).ok().map(value_to_json)
}

/// Relies on serde_json::to_string_pretty on a generic value: the
/// pretty-printed text is a function of the document alone, and — for a
/// canonical document within the parser's recursion limit — parsing it yields
/// the document back. The parse-back clause rests on the codec's exact float
/// parsing (the `float_roundtrip` feature), under which a rendered number
/// text reads back as the same number.
#[verifier::external_body]
pub(crate) fn to_pretty_text(j: &Json) -> (r: String)
    requires
        canonical(j@),
        depth(j@) <= 127,
    ensures
        r@ == spec_pretty_text(j@),
        spec_parse_json(r@) == Some(j@),
{
    serde_json::to_string_pretty(&json_to_value(j)).unwrap_or_default()
}

} // verus!

