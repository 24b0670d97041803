//! Complete message history of one Slack channel as a single JSON array.
//!
//! The library holds the decisions of the export: how a page of the
//! conversation history is requested, how a decoded reply becomes a chunk of
//! messages, when another page is due, and which bytes make up the JSON array.
//! Sending requests and writing bytes is left to the caller.

pub mod json;
pub mod response;
pub mod slack;
pub mod emit;
pub mod export;
pub mod sequence;
