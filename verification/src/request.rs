//! Preparing the upstream request.

use vstd::prelude::*;
use vstd::string::StringExecFns;
use crate::error::RelayError;
use crate::json::{Json, JsonValue};

verus! {

/// Whether `body` opens a conversation. This goes by the count of messages
/// alone: `messages` must be an array of exactly two elements, whatever
/// they are.
pub open spec fn first_turn(body: JsonValue) -> bool {
    match body.member("messages"@) {
        Some(JsonValue::Array(items)) => items.len() == 2,
        _ => false,
    }
}

/// `body` with its `model` set to `model`.
pub open spec fn with_model(body: JsonValue, model: Seq<char>) -> JsonValue {
    body.with_member("model"@, JsonValue::Text(model))
}

/// Whether `body` opens a conversation. A document without `messages`, or
/// with `messages` that are no array, does not.
pub fn is_first_turn(body: &Json) -> (flag: bool)
    ensures
        flag == first_turn(body@),
{
    match body.get("messages") {
        Some(messages) => match messages.array_len() {
            Some(n) => n == 2,
            None => false,
        },
        None => false,
    }
}

/// Sets the `model` of a request document. Fails with `MalformedRequest` if
/// and only if the document is not an object.
pub fn insert_model(body: Json, model: &str) -> (prepared: Result<Json, RelayError>)
    ensures
        body@ is Object ==> prepared is Ok,
        !(body@ is Object) ==> prepared == Err::<Json, RelayError>(RelayError::MalformedRequest),
        prepared matches Ok(doc) ==> {
            &&& doc@ == with_model(body@, model@)
            &&& doc@.member("model"@) == Some(JsonValue::Text(model@))
            &&& forall|key: Seq<char>| key != "model"@ ==> doc@.member(key) == body@.member(key)
        },
{
    match body {
        Json::Object(_) => Ok(body.with_member("model".to_owned(), Json::text(model))),
        _ => Err(RelayError::MalformedRequest),
    }
}

/// What a refusal of the upstream is reported as.
pub open spec fn refusal_report(status: Seq<char>) -> Seq<char> {
    "Request failed with status: "@ + status
}

/// Whether the answer of the upstream is one to relay. An answer with a
/// status other than success is a transport error, reported with the
/// status; the relay does not start on it.
pub fn accept_status(success: bool, status: &str) -> (accepted: Result<(), RelayError>)
    ensures
        success ==> accepted is Ok,
        !success ==> (accepted matches Err(RelayError::Transport(report)) && report@
            == refusal_report(status@)),
{
    if success {
        Ok(())
    } else {
        let mut report = "Request failed with status: ".to_owned();
        report.append(status);
        Err(RelayError::Transport(report))
    }
}

} // verus!
