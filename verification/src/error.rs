//! Evaluation errors.
use vstd::prelude::*;

verus! {

/// Why evaluation stopped.
#[derive(Debug, Clone, Copy, PartialEq, Eq, Structural)]
pub enum ErrorReason {
    Syntax,
    Runtime,
    System,
    Assert,
}

/// An evaluation error: a message and its reason.
#[derive(Debug)]
pub struct Error {
    pub message: String,
    pub reason: ErrorReason,
}

/// The model of an [`Error`].
pub struct ErrorM {
    pub message: Seq<char>,
    pub reason: ErrorReason,
}

impl View for Error {
    type V = ErrorM;

    open spec fn view(&self) -> ErrorM {
        ErrorM { message: self.message@, reason: self.reason }
    }
}

impl Clone for Error {
    fn clone(&self) -> (r: Error)
        ensures
            r@ == self@,
    {
        Error { message: self.message.clone(), reason: self.reason }
    }
}

} // verus!
