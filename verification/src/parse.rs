use vstd::prelude::*;

use crate::error::SplitError;
use crate::value::JsonValue;

verus! {

#[verifier::external_type_specification]
#[verifier::external_body]
pub struct ExValue(serde_json::Value);

/// The tree that a document text parses to, in this library's model, or
/// `None` when the text is not valid JSON.  What serde_json parses a text
/// to depends on the text alone, so the result carries a name here rather
/// than a definition.
pub uninterp spec fn parsed_doc(s: Seq<char>) -> Option<JsonValue>;

/// This library's model of a `serde_json::Value`: the same tree as the
/// library's own type, with each number carried as its serde_json text.
/// The modeling depends on the value alone.
pub uninterp spec fn value_model(v: serde_json::Value) -> JsonValue;

/// Relies on serde_json::from_str: whether a text is valid JSON, and which
/// tree it denotes, depend on the text alone.
#[verifier::external_body]
fn parse_via_serde(s: &str) -> (r: Option<serde_json::Value>)
    ensures
        match r {
            Some(v) => parsed_doc(s@) == Some(value_model(v)),
            None => parsed_doc(s@) is None,
        },
{
    serde_json::from_str::<serde_json::Value>(s).ok()
}

/// Relies on serde_json::Value's variants and on Number::to_string:
/// rebuilds the parsed tree as the library's own type, variant by variant,
/// with numbers as their serde_json text; object members come out in
/// serde_json's own (sorted) member order.
#[verifier::external_body]
fn model_of(v: &serde_json::Value) -> (r: JsonValue)
    ensures
        r == value_model(*v),
{
    match v {
        serde_json::Value::Null => JsonValue::Null,
        serde_json::Value::Bool(b) => JsonValue::Bool(*b),
        serde_json::Value::Number(n) => JsonValue::Num(n.to_string()),
        serde_json::Value::String(s) => JsonValue::Str(s.clone()),
        serde_json::Value::Array(a) => JsonValue::Arr(a.iter().map(model_of).collect()),
        serde_json::Value::Object(m) => JsonValue::Obj(
            m.iter().map(|(k, x)| (k.clone(), model_of(x))).collect(),
        ),
    }
}

/// Parses a JSON document text into the library's value model: the tree
/// named by [`parsed_doc`], or `ParseError` when the text is not JSON.
pub fn parse_document(s: &str) -> (r: Result<JsonValue, SplitError>)
    ensures
        match r {
            Ok(v) => parsed_doc(s@) == Some(v),
            Err(e) => e == SplitError::ParseError && parsed_doc(s@) is None,
        },
{
    match parse_via_serde(s) {
        Some(v) => Ok(model_of(&v)),
        None => Err(SplitError::ParseError),
    }
}

} // verus!
