//! Streaming chat relay: request preparation, event-stream decoding and the
//! relay state machine, with machine-checked contracts.

pub mod error;
pub mod framing;
pub mod json;
pub mod models;
pub mod parse;
pub mod relay;
pub mod request;
pub mod session;
pub mod signal;
pub mod title;
pub mod text;
