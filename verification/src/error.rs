//! The error that the library's operations return.

use vstd::prelude::*;

verus! {

/// The class of an [`Error`]. An error that the system reports by a number is in a
/// class of its own.
#[derive(Clone, Copy, Debug, PartialEq, Eq, Structural)]
pub enum ErrorKind {
    InvalidData,
    InvalidInput,
    TimedOut,
    UnexpectedEof,
    WriteZero,
    System(i32),
    Other,
}

/// A failure: its class and a text for the operator.
#[derive(Debug)]
pub struct Error {
    pub kind: ErrorKind,
    pub message: String,
}

/// What an [`Error`] says.
pub struct Report {
    pub kind: ErrorKind,
    pub message: Seq<char>,
}

impl View for Error {
    type V = Report;

    open spec fn view(&self) -> Report {
        Report { kind: self.kind, message: self.message@ }
    }
}

impl Error {
    /// The class of the failure.
    pub fn kind(&self) -> (kind: ErrorKind)
        ensures
            kind == self@.kind,
    {
        self.kind
    }

    /// The text for the operator.
    pub fn message(&self) -> (message: String)
        ensures
            message@ == self@.message,
    {
        self.message.clone()
    }
}

/// A failure caused by malformed or inconsistent data.
pub fn invalid(message: String) -> (error: Error)
    ensures
        error@ == (Report { kind: ErrorKind::InvalidData, message: message@ }),
{
    Error { kind: ErrorKind::InvalidData, message }
}

/// A failure of no particular class.
pub fn other(message: String) -> (error: Error)
    ensures
        error@ == (Report { kind: ErrorKind::Other, message: message@ }),
{
    Error { kind: ErrorKind::Other, message }
}

} // verus!
