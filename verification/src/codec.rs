//! What `serde_json` and `serde_json_path` do for the library: reading and
//! writing JSON text, answering path queries, and arithmetic on numbers that are
//! no whole numbers. Nothing in this file is proved; each contract says what is
//! taken on trust.

use crate::json::{items_view, well_formed, Json, JsonNumber, JsonValue, Num};
use vstd::prelude::*;

verus! {

#[verifier::external_type_specification]
#[verifier::external_body]
pub struct ExOutsideValue(serde_json::Value);

#[verifier::external_type_specification]
#[verifier::external_body]
pub struct ExOutsideNumber(serde_json::Number);

/// The document that `serde_json::from_str` reads from a text, if it reads one.
pub uninterp spec fn json_parse(text: Seq<char>) -> Option<Json>;

/// The compact text that `serde_json` writes for a document.
pub uninterp spec fn json_text(doc: Json) -> Seq<char>;

/// What `serde_json_path` answers to a path asked of a document: the nodes it
/// selects, in its order, or the message of the error in the path.
pub uninterp spec fn json_path_query(path: Seq<char>, doc: Json) -> Result<Seq<Json>, Seq<char>>;

/// Whether the first number is below the second once `serde_json` has read both
/// as doubles (`Number::as_f64`).
pub uninterp spec fn double_less(a: Num, b: Num) -> bool;

/// A number as the double that `Number::as_f64` gives for it, held as a number
/// again; none for a text that does not read as a finite double.
pub uninterp spec fn as_double(a: Num) -> Option<Num>;

/// The sum of two numbers as doubles; none where the sum is not finite.
pub uninterp spec fn double_sum(a: Num, b: Num) -> Option<Num>;

/// Builds the `serde_json::Number` for a number of the library: a whole number
/// through `From`; any other through the double that `str::parse` of std reads
/// from its text, and `Number::from_f64`, which takes finite doubles only. That
/// reading rounds to the nearest double.
#[verifier::external_body]
fn number_to_outside(n: &JsonNumber) -> Option<serde_json::Number> {
    match n {
        JsonNumber::PosInt(u) => Some(serde_json::Number::from(*u)),
        JsonNumber::NegInt(i) => Some(serde_json::Number::from(*i)),
        JsonNumber::Float(t) => serde_json::Number::from_f64(t.parse().ok()?),
    }
}

/// Reads a `serde_json::Number` into a number of the library: `as_u64`, else
/// `as_i64`, else its `Display` text.
#[verifier::external_body]
fn number_from_outside(n: &serde_json::Number) -> JsonNumber {
    match (n.as_u64(), n.as_i64()) {
        (Some(u), _) => JsonNumber::PosInt(u),
        (_, Some(i)) => JsonNumber::NegInt(i),
        _ => JsonNumber::Float(n.to_string()),
    }
}

/// Builds the `serde_json::Value` for a document of the library, variant by
/// variant. A number whose text `serde_json` does not read becomes `Null`.
#[verifier::external_body]
fn to_outside(v: &JsonValue) -> serde_json::Value {
    match v {
        JsonValue::Null => serde_json::Value::Null,
        JsonValue::Bool(b) => serde_json::Value::Bool(*b),
        JsonValue::Number(n) => number_to_outside(n).map_or(serde_json::Value::Null, serde_json::Value::Number),
        JsonValue::String(s) => serde_json::Value::String(s.clone()),
        JsonValue::Array(a) => serde_json::Value::Array(a.iter().map(to_outside).collect()),
        JsonValue::Object(m) => serde_json::Value::Object(m.iter().map(|e| (e.0.clone(), to_outside(&e.1))).collect()),
    }
}

/// Reads a `serde_json::Value` into a document of the library, variant by
/// variant; the members of an object come in the order in which the map yields
/// them.
#[verifier::external_body]
fn from_outside(v: &serde_json::Value) -> JsonValue {
    match v {
        serde_json::Value::Null => JsonValue::Null,
        serde_json::Value::Bool(b) => JsonValue::Bool(*b),
        serde_json::Value::Number(n) => JsonValue::Number(number_from_outside(n)),
        serde_json::Value::String(s) => JsonValue::String(s.clone()),
        serde_json::Value::Array(a) => JsonValue::Array(a.iter().map(from_outside).collect()),
        serde_json::Value::Object(m) => JsonValue::Object(m.iter().map(|e| (e.0.clone(), from_outside(e.1))).collect()),
    }
}

/// `serde_json::from_str::<Value>`: the document that the text writes, or none
/// where the text is not JSON. The same text always reads as the same document.
/// What is read is well formed: the map of a `Value` holds each name once, and
/// a `Number` holds as negative only what is below zero.
#[verifier::external_body]
pub(crate) fn parse_json(text: &str) -> (r: Option<JsonValue>)
    ensures
        match r {
            Some(v) => json_parse(text@) == Some(v@) && well_formed(v@),
            None => json_parse(text@) is None,
        },
{
    serde_json::from_str::<serde_json::Value>(text).ok().map(|v| from_outside(&v))
}

/// `Display` of `serde_json::Value`: the compact JSON text of the document.
#[verifier::external_body]
pub(crate) fn write_json(doc: &JsonValue) -> (r: String)
    ensures
        r@ == json_text(doc@),
{
    to_outside(doc).to_string()
}

/// `JsonPath::parse`, then `JsonPath::query` and `NodeList::all`: the nodes that
/// the path selects in the document, in the order in which the query returns
/// them, or the parse error's message. Each node is read from a `Value`, and so
/// is well formed.
#[verifier::external_body]
pub(crate) fn query_path(path: &str, doc: &JsonValue) -> (r: Result<Vec<JsonValue>, String>)
    ensures
        match r {
            Ok(found) => json_path_query(path@, doc@) == Ok::<Seq<Json>, Seq<char>>(
                items_view(found@),
            ) && well_formed(Json::Array(items_view(found@))),
            Err(message) => json_path_query(path@, doc@) == Err::<Seq<Json>, Seq<char>>(message@),
        },
{
    let parsed = serde_json_path::JsonPath::parse(path).map_err(|e| e.to_string())?;
    Ok(parsed.query(&to_outside(doc)).all().into_iter().map(from_outside).collect())
}

/// `Number::as_f64` on both numbers and `<` on the doubles. A text that is no
/// number is below nothing and nothing is below it.
#[verifier::external_body]
pub(crate) fn number_less(a: &JsonNumber, b: &JsonNumber) -> (r: bool)
    ensures
        r == double_less(a@, b@),
{
    match (number_to_outside(a), number_to_outside(b)) {
        (Some(x), Some(y)) => x.as_f64() < y.as_f64(),
        _ => false,
    }
}

/// `Number::as_f64`, and `Number::from_f64` on what it gives.
#[verifier::external_body]
pub(crate) fn number_as_double(a: &JsonNumber) -> (r: Option<JsonNumber>)
    ensures
        match r {
            Some(d) => as_double(a@) == Some(d@),
            None => as_double(a@) is None,
        },
{
    let x = number_to_outside(a)?.as_f64()?;
    serde_json::Number::from_f64(x).map(|n| number_from_outside(&n))
}

/// `Number::as_f64` on both numbers, `+` on the doubles, and `Number::from_f64`
/// on the sum, which gives none for a sum that is not finite.
#[verifier::external_body]
pub(crate) fn number_add(a: &JsonNumber, b: &JsonNumber) -> (r: Option<JsonNumber>)
    ensures
        match r {
            Some(d) => double_sum(a@, b@) == Some(d@),
            None => double_sum(a@, b@) is None,
        },
{
    let x = number_to_outside(a)?.as_f64()?;
    let y = number_to_outside(b)?.as_f64()?;
    serde_json::Number::from_f64(x + y).map(|n| number_from_outside(&n))
}

} // verus!
