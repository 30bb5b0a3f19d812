//! Why a relay ends early.

use vstd::prelude::*;

verus! {

/// What the caller is told when the request document is not an object.
pub const NOT_AN_OBJECT: &'static str = "Body is not a JSON object";

/// A failure that ends the relay.
#[derive(Debug, PartialEq, Eq)]
pub enum RelayError {
    /// The request document is not an object, so no model can be put in it.
    MalformedRequest,
    /// The connection failed or the upstream refused; with its report.
    Transport(String),
    /// The display surface refused an emission; with its report.
    Delivery(String),
}

impl RelayError {
    /// The text of this error.
    pub open spec fn message_spec(self) -> Seq<char> {
        match self {
            RelayError::MalformedRequest => NOT_AN_OBJECT@,
            RelayError::Transport(report) => report@,
            RelayError::Delivery(report) => report@,
        }
    }

    /// The text that the caller of the relay is given for this error.
    pub fn message(&self) -> (text: String)
        ensures
            text@ == self.message_spec(),
    {
        match self {
            RelayError::MalformedRequest => NOT_AN_OBJECT.to_owned(),
            RelayError::Transport(report) => report.clone(),
            RelayError::Delivery(report) => report.clone(),
        }
    }
}

} // verus!
