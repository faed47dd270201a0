//! Task-record codec and preferences for a file-based task tracker.
//!
//! A task is persisted as a text file: a structured key/value header between
//! two `---` delimiter lines, followed by the free-form notes body. This crate
//! verifies the encoder, the decoder, and the round-trip law between them,
//! together with the small preferences format.

use vstd::prelude::*;

pub mod frontmatter;
pub mod header;
pub mod lines;
pub mod preferences;
pub mod task;

verus! {

/// Errors surfaced by the codec.
///
/// `Parse` reports a malformed persisted task text (missing delimiters or a
/// header that does not follow the key/value grammar). `Format` reports an
/// in-memory record whose fields cannot be represented in the header text
/// (for example, a summary containing a newline).
#[derive(Debug)]
pub enum RstaskError {
    Parse(String),
    Format(String),
}

} // verus!
