//! The error every fallible operation of the library reports: one line of text, and a kind for those
//! that a caller may want to tell apart.

use vstd::prelude::*;

verus! {

/// What kind of error it is.
#[derive(Debug, Clone, Copy, PartialEq, Eq, Structural)]
pub enum ErrorKind {
    /// None of the others.
    Other,
    /// What was read is not what it should be.
    InvalidData,
    /// What was asked for cannot be done.
    InvalidInput,
    /// The time was up.
    TimedOut,
    /// What was read ended too early.
    UnexpectedEof,
    /// Nothing could be written.
    WriteZero,
}

/// An error is the message a caller prints, and its kind.
#[derive(Debug)]
pub struct Error {
    pub msg: String,
    pub kind: ErrorKind,
}

impl View for Error {
    type V = Seq<char>;

    open spec fn view(&self) -> Seq<char> {
        self.msg@
    }
}

impl Error {
    /// Wraps a finished message.
    pub fn new(msg: String) -> (e: Error)
        ensures
            e@ == msg@,
            e.kind == ErrorKind::Other,
    {
        Error { msg, kind: ErrorKind::Other }
    }

    /// Wraps a finished message of a certain kind.
    pub fn of_kind(kind: ErrorKind, msg: String) -> (e: Error)
        ensures
            e@ == msg@,
            e.kind == kind,
    {
        Error { msg, kind }
    }

    /// The message of an error, as text.
    pub fn message(&self) -> (s: &str)
        ensures
            s@ == self@,
    {
        self.msg.as_str()
    }
}

} // verus!
