//! Error values shared by the whole pipeline.

use vstd::prelude::*;

verus! {

/// What went wrong: the remote API failed or answered with a
/// non-success status, the caller's token was invalid or expired, or
/// a requested entity was not found in the resolved collections.
#[derive(Clone, Copy, Debug, PartialEq, Eq, Structural)]
pub enum ErrorKind {
    Api,
    NotAuthenticated,
    UnknownEntity,
}

/// An error of the pipeline: a kind together with a human-readable
/// message.
#[derive(Clone, Debug)]
pub struct Error {
    pub kind: ErrorKind,
    pub message: String,
}

impl Error {
    /// Builds an error of the given kind.
    pub fn new(kind: ErrorKind, message: String) -> (r: Error)
        ensures
            r.kind == kind,
            r.message@ == message@,
    {
        Error { kind, message }
    }

    /// The message text, for callers that only report the error.
    pub fn message_text(&self) -> (r: String)
        ensures
            r@ == self.message@,
    {
        self.message.clone()
    }
}

} // verus!
