//! The envelope in which the list of models is handed to the caller.

use vstd::prelude::*;
use vstd::string::StringExecFns;
use crate::json::{Json, JsonValue};

verus! {

/// The result of a command: whether it succeeded, with its data or with
/// the report of its failure.
#[derive(Debug, PartialEq, Eq)]
pub struct CommandResult {
    pub success: bool,
    pub data: Option<Json>,
    pub error: Option<String>,
}

/// The mathematical value of a [`CommandResult`].
pub ghost struct CommandResultValue {
    pub success: bool,
    pub data: Option<JsonValue>,
    pub error: Option<Seq<char>>,
}

impl View for CommandResult {
    type V = CommandResultValue;

    open spec fn view(&self) -> CommandResultValue {
        CommandResultValue {
            success: self.success,
            data: match self.data {
                Some(doc) => Some(doc@),
                None => None,
            },
            error: match self.error {
                Some(report) => Some(report@),
                None => None,
            },
        }
    }
}

/// How the request for the list of models ended.
#[derive(Debug, PartialEq, Eq)]
pub enum ModelsReply {
    /// The endpoint answered with success and with this document.
    Listed(Json),
    /// The endpoint answered with success, but its body was no document;
    /// with the report of the reader.
    Unreadable(String),
    /// The endpoint answered with another status; with the status.
    Refused(String),
    /// The request could not be made; with the report.
    Unreachable(String),
}

/// The envelope of a success.
pub open spec fn success_value(data: JsonValue) -> CommandResultValue {
    CommandResultValue { success: true, data: Some(data), error: None }
}

/// The envelope of a failure.
pub open spec fn failure_value(report: Seq<char>) -> CommandResultValue {
    CommandResultValue { success: false, data: None, error: Some(report) }
}

/// The envelope that belongs to each way in which the request can end.
pub open spec fn models_envelope(reply: ModelsReply) -> CommandResultValue {
    match reply {
        ModelsReply::Listed(doc) => success_value(doc@),
        ModelsReply::Unreadable(report) => failure_value("Failed to parse JSON: "@ + report@),
        ModelsReply::Refused(status) => failure_value("Request failed with status: "@ + status@),
        ModelsReply::Unreachable(report) => failure_value("Request error: "@ + report@),
    }
}

impl CommandResult {
    /// The envelope of a success with `data`.
    pub fn succeeded(data: Json) -> (result: CommandResult)
        ensures
            result@ == success_value(data@),
    {
        CommandResult { success: true, data: Some(data), error: None }
    }

    /// The envelope of a failure: `prefix`, then `detail`.
    pub fn failed(prefix: &str, detail: &str) -> (result: CommandResult)
        ensures
            result@ == failure_value(prefix@ + detail@),
    {
        let mut report = prefix.to_owned();
        report.append(detail);
        CommandResult { success: false, data: None, error: Some(report) }
    }
}

/// The envelope for the way in which the request for the list of models
/// ended.
pub fn models_result(reply: ModelsReply) -> (result: CommandResult)
    ensures
        result@ == models_envelope(reply),
{
    match reply {
        ModelsReply::Listed(doc) => CommandResult::succeeded(doc),
        ModelsReply::Unreadable(report) => CommandResult::failed(
            "Failed to parse JSON: ",
            report.as_str(),
        ),
        ModelsReply::Refused(status) => CommandResult::failed(
            "Request failed with status: ",
            status.as_str(),
        ),
        ModelsReply::Unreachable(report) => CommandResult::failed(
            "Request error: ",
            report.as_str(),
        ),
    }
}

} // verus!
