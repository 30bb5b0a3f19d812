//! Reading text: bytes to characters, characters to a document.
//!
//! The two conversions are done by code outside this crate. What this
//! module states of them is believed, not proved.

use vstd::prelude::*;
use vstd::utf8::{decode_utf8, valid_utf8};
use crate::json::{Json, JsonValue};

verus! {

/// `serde_json::Value`, carried and never looked into.
#[verifier::external_type_specification]
#[verifier::external_body]
pub struct ExValue(serde_json::Value);

/// `serde_json::Error`, carried and never looked into.
#[verifier::external_type_specification]
#[verifier::external_body]
pub struct ExError(serde_json::Error);

/// `serde_json::Number`, carried and never looked into.
#[verifier::external_type_specification]
#[verifier::external_body]
pub struct ExNumber(serde_json::Number);

/// `Clone` of `serde_json::Number`. Believed: the copy is the number.
pub assume_specification[ <serde_json::Number as Clone>::clone ](
    number: &serde_json::Number,
) -> (copy: serde_json::Number)
    ensures
        copy == *number,
;

/// The characters that `String::from_utf8_lossy` makes of `bytes`.
pub uninterp spec fn lossy_text(bytes: Seq<u8>) -> Seq<char>;

/// The document that `serde_json::from_str` reads from `text`, or `None`
/// where it reports an error.
pub uninterp spec fn parsed_document(text: Seq<char>) -> Option<JsonValue>;

/// The document that a `serde_json::Value` holds.
pub uninterp spec fn value_of(value: serde_json::Value) -> JsonValue;

/// Calls `String::from_utf8_lossy`. Believed: the result depends on the
/// bytes alone, and bytes that are valid UTF-8 are decoded as they stand.
#[verifier::external_body]
pub(crate) fn text_from_bytes(bytes: &[u8]) -> (text: String)
    ensures
        text@ == lossy_text(bytes@),
        valid_utf8(bytes@) ==> text@ == decode_utf8(bytes@),
{
    String::from_utf8_lossy(bytes).into_owned()
}

/// Calls `serde_json::from_str` for a `serde_json::Value`. Believed: whether
/// the text is accepted, and the document read from it, depend on the text
/// alone.
#[verifier::external_body]
fn value_from_text(text: &str) -> (parsed: Result<serde_json::Value, serde_json::Error>)
    ensures
        parsed is Ok == parsed_document(text@) is Some,
        parsed matches Ok(value) ==> parsed_document(text@) == Some(value_of(value)),
{
    serde_json::from_str::<serde_json::Value>(text)
}

/// Takes a `serde_json::Value` apart, variant by variant, into a document of
/// this crate. Believed: the document holds what the value held.
#[verifier::external_body]
fn document_from_value(value: serde_json::Value) -> (doc: Json)
    ensures
        doc@ == value_of(value),
{
    match value {
        serde_json::Value::Null => Json::Null,
        serde_json::Value::Bool(b) => Json::Bool(b),
        serde_json::Value::Number(n) => Json::Number(n),
        serde_json::Value::String(s) => Json::Text(s),
        serde_json::Value::Array(a) => Json::Array(a.into_iter().map(document_from_value).collect()),
        serde_json::Value::Object(m) => Json::Object(
            m.into_iter().map(|(k, v)| (k, document_from_value(v))).collect(),
        ),
    }
}

/// Reads `text` as a JSON document. `None` where the text is not one.
pub fn parse_document(text: &str) -> (doc: Option<Json>)
    ensures
        doc is Some == parsed_document(text@) is Some,
        doc matches Some(d) ==> parsed_document(text@) == Some(d@),
{
    match value_from_text(text) {
        Ok(value) => Some(document_from_value(value)),
        Err(_) => None,
    }
}

} // verus!
