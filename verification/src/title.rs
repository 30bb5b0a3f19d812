//! The request for a conversation title, and what becomes of its answer.

use vstd::prelude::*;
use vstd::string::StringExecFns;
use crate::json::{Json, JsonValue};

verus! {

/// The instruction that asks for a title.
pub const TITLE_PROMPT: &'static str =
    "Please generate a short, descriptive title (maximum 7 words) for this conversation based on the user's question using user's language. Only return the title, no additional text.";

/// A chat message: an object with a `role` and a `content`.
pub open spec fn message(role: Seq<char>, content: Seq<char>) -> JsonValue {
    JsonValue::Object(
        Map::empty().insert("role"@, JsonValue::Text(role)).insert(
            "content"@,
            JsonValue::Text(content),
        ),
    )
}

/// The body of the title request that belongs to `body` and `reply`: the
/// `stream` flag is gone, and where `messages` are an array, the reply as an
/// assistant message and the instruction as a user message stand at their
/// end.
pub open spec fn title_body(body: JsonValue, reply: Seq<char>) -> JsonValue {
    let base = body.without_member("stream"@);
    match base.member("messages"@) {
        Some(JsonValue::Array(items)) => base.with_member(
            "messages"@,
            JsonValue::Array(
                items.push(message("assistant"@, reply)).push(message("user"@, TITLE_PROMPT@)),
            ),
        ),
        _ => base,
    }
}

/// What a failed title request is reported as.
pub open spec fn failure_report(status: Seq<char>, body: Seq<char>) -> Seq<char> {
    "Request failed with status: "@ + status + ", body: "@ + body
}

/// A chat message with the given role and content.
pub fn chat_message(role: &str, content: &str) -> (doc: Json)
    ensures
        doc@ == message(role@, content@),
{
    Json::object().with_member("role".to_owned(), Json::text(role)).with_member(
        "content".to_owned(),
        Json::text(content),
    )
}

/// Builds the body of the title request from the body of the chat request
/// and the reply of the assistant. Never fails.
pub fn create_title_body(request_body: &Json, assistant_response: &str) -> (body: Result<
    Json,
    String,
>)
    ensures
        body matches Ok(doc) && doc@ == title_body(request_body@, assistant_response@),
{
    let base = request_body.duplicate().without_member("stream");
    let extended: Option<Json> = match base.get("messages") {
        Some(messages) => match messages.array_len() {
            Some(_) => Some(
                messages.duplicate().with_item(
                    chat_message("assistant", assistant_response),
                ).with_item(chat_message("user", TITLE_PROMPT)),
            ),
            None => None,
        },
        None => None,
    };
    match extended {
        Some(messages) => Ok(base.with_member("messages".to_owned(), messages)),
        None => Ok(base),
    }
}

/// The report of a title request that the upstream answered with a status
/// other than success.
pub fn title_failure(status: &str, body: &str) -> (report: String)
    ensures
        report@ == failure_report(status@, body@),
{
    let mut report = "Request failed with status: ".to_owned();
    report.append(status);
    report.append(", body: ");
    report.append(body);
    report
}

/// How the upstream answered the title request.
#[derive(Debug, PartialEq, Eq)]
pub enum TitleAnswer {
    /// With success and with this document.
    Success(Json),
    /// With another status; with the status and the body of the answer.
    Refused { status: String, body: String },
    /// Not at all, or with what could not be read; with the report.
    Failed(String),
}

/// What becomes of the answer to the title request: a success is the
/// document to show as the title update, anything else is the report of the
/// failure. The report is for the log; the relay never sees it.
pub fn title_result(answer: TitleAnswer) -> (result: Result<Json, String>)
    ensures
        match answer {
            TitleAnswer::Success(doc) => result matches Ok(shown) && shown@ == doc@,
            TitleAnswer::Refused { status, body } => result matches Err(report) && report@
                == failure_report(status@, body@),
            TitleAnswer::Failed(why) => result matches Err(report) && report@ == why@,
        },
{
    match answer {
        TitleAnswer::Success(doc) => Ok(doc),
        TitleAnswer::Refused { status, body } => Err(title_failure(status.as_str(), body.as_str())),
        TitleAnswer::Failed(why) => Err(why),
    }
}

} // verus!
