//! What can go wrong.
use vstd::prelude::*;

verus! {

/// Why reading or writing bytes failed.
#[verifier::external_type_specification]
#[verifier::external_body]
pub struct ExIoError(std::io::Error);

/// What went wrong.
#[derive(Debug)]
pub enum PipeError {
    /// A text is no JSON, or JSON of another shape.
    Json(serde_json::Error),
    /// The store refused something; in the words of the store.
    Sink(String),
    /// Reading or writing bytes failed; what was being done, and why.
    Io(String, std::io::Error),
    /// Anything else.
    Other(String),
}

} // verus!
