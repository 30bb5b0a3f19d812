//! What one record means to the relay.

use vstd::prelude::*;
use vstd::utf8::{decode_utf8, valid_utf8};
use crate::json::{Json, JsonValue};
use crate::parse::{lossy_text, parse_document, parsed_document, text_from_bytes};
use crate::text::text_eq;

verus! {

/// The payload that ends a stream.
pub const SENTINEL: &'static str = "[DONE]";

/// What a record asks of the relay.
#[derive(Debug, PartialEq, Eq)]
pub enum Signal {
    /// Forward this piece of the reply.
    Fragment(String),
    /// The stream is over.
    Terminate,
    /// Nothing to do.
    Ignore,
}

/// The mathematical value of a [`Signal`].
pub ghost enum SignalValue {
    Fragment(Seq<char>),
    Terminate,
    Ignore,
}

impl View for Signal {
    type V = SignalValue;

    open spec fn view(&self) -> SignalValue {
        match self {
            Signal::Fragment(t) => SignalValue::Fragment(t@),
            Signal::Terminate => SignalValue::Terminate,
            Signal::Ignore => SignalValue::Ignore,
        }
    }
}

/// The value of an optional document.
pub open spec fn optional_value(doc: Option<&Json>) -> Option<JsonValue> {
    match doc {
        Some(d) => Some(d@),
        None => None,
    }
}

/// The string at `choices[0].delta.content` of a document, if there is one.
pub open spec fn delta_content(doc: JsonValue) -> Option<Seq<char>> {
    match doc.member("choices"@) {
        Some(choices) => match choices.element(0) {
            Some(choice) => match choice.member("delta"@) {
                Some(delta) => match delta.member("content"@) {
                    Some(content) => content.text(),
                    None => None,
                },
                None => None,
            },
            None => None,
        },
        None => None,
    }
}

/// What a record means, given its payload as text and the document read
/// from that text: the sentinel ends the stream, a document with content is
/// a fragment, and anything else is ignored.
pub open spec fn classify(text: Seq<char>, doc: Option<JsonValue>) -> SignalValue {
    if text == SENTINEL@ {
        SignalValue::Terminate
    } else {
        match doc {
            Some(d) => match delta_content(d) {
                Some(content) => SignalValue::Fragment(content),
                None => SignalValue::Ignore,
            },
            None => SignalValue::Ignore,
        }
    }
}

/// What the record with the payload `bytes` means.
pub open spec fn signal_of(bytes: Seq<u8>) -> SignalValue {
    classify(lossy_text(bytes), parsed_document(lossy_text(bytes)))
}

/// The string at `choices[0].delta.content` of `doc`, if there is one.
pub fn extract_content(doc: &Json) -> (found: Option<&str>)
    ensures
        found is Some == delta_content(doc@) is Some,
        found matches Some(t) ==> delta_content(doc@) == Some(t@),
{
    let choices = match doc.get("choices") {
        Some(c) => c,
        None => { return None; },
    };
    let choice = match choices.at(0) {
        Some(c) => c,
        None => { return None; },
    };
    let delta = match choice.get("delta") {
        Some(d) => d,
        None => { return None; },
    };
    match delta.get("content") {
        Some(content) => content.as_text(),
        None => None,
    }
}

/// What a record means, given its payload as text and the document that was
/// read from that text, if one was.
pub fn classify_record(text: &str, doc: Option<&Json>) -> (signal: Signal)
    ensures
        signal@ == classify(text@, optional_value(doc)),
{
    if text_eq(text, SENTINEL) {
        return Signal::Terminate;
    }
    match doc {
        Some(d) => match extract_content(d) {
            Some(content) => Signal::Fragment(content.to_owned()),
            None => Signal::Ignore,
        },
        None => Signal::Ignore,
    }
}

/// What the record with the payload `bytes` means. The payload is read as
/// text; unless it is the sentinel, the text is read as a document. Where
/// the payload is valid UTF-8, the text is what it encodes.
pub fn interpret(bytes: &[u8]) -> (signal: Signal)
    ensures
        signal@ == signal_of(bytes@),
        valid_utf8(bytes@) ==> signal@ == classify(
            decode_utf8(bytes@),
            parsed_document(decode_utf8(bytes@)),
        ),
{
    let text = text_from_bytes(bytes);
    if text_eq(text.as_str(), SENTINEL) {
        return Signal::Terminate;
    }
    let doc = parse_document(text.as_str());
    classify_record(text.as_str(), doc.as_ref())
}

} // verus!
