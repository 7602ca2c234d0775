//! What a refused change or commit is answered with.

use vstd::prelude::*;
use vstd::string::*;

use crate::text::joined;

verus! {

/// What went wrong, as far as a caller can act on it.
#[derive(Clone, Copy, Debug, PartialEq, Eq, Structural)]
pub enum ErrorKind {
    /// A request, or the data it speaks of, is not valid.
    DataInvalid,
    /// A commit runs against a table that has changed since.
    CatalogCommitConflicts,
}

/// An error: its kind, a message, and whether trying again may help.
#[derive(Debug)]
pub struct Error {
    kind: ErrorKind,
    message: String,
    retryable: bool,
}

/// What an [`Error`] says.
pub struct ErrorView {
    pub kind: ErrorKind,
    pub message: Seq<char>,
    pub retryable: bool,
}

impl View for Error {
    type V = ErrorView;

    closed spec fn view(&self) -> ErrorView {
        ErrorView { kind: self.kind, message: self.message@, retryable: self.retryable }
    }
}

/// Invalid data. Trying again does not help.
pub open spec fn data_invalid(message: Seq<char>) -> ErrorView {
    ErrorView { kind: ErrorKind::DataInvalid, message, retryable: false }
}

/// A conflict with what the table holds now. Trying again does not help.
pub open spec fn commit_conflict(message: Seq<char>) -> ErrorView {
    ErrorView { kind: ErrorKind::CatalogCommitConflicts, message, retryable: false }
}

impl Error {
    /// An error that trying again does not mend.
    pub fn new(kind: ErrorKind, message: String) -> (res: Self)
        ensures
            res@ == (ErrorView { kind, message: message@, retryable: false }),
    {
        Error { kind, message, retryable: false }
    }

    pub fn kind(&self) -> (res: ErrorKind)
        ensures
            res == self@.kind,
    {
        self.kind
    }

    pub fn message(&self) -> (res: &str)
        ensures
            res@ == self@.message,
    {
        self.message.as_str()
    }

    pub fn retryable(&self) -> (res: bool)
        ensures
            res == self@.retryable,
    {
        self.retryable
    }

    pub(crate) fn invalid(message: &str) -> (res: Self)
        ensures
            res@ == data_invalid(message@),
    {
        Error::new(ErrorKind::DataInvalid, String::from_str(message))
    }

    pub(crate) fn invalid_at(message: &str, subject: &str) -> (res: Self)
        ensures
            res@ == data_invalid(message@ + subject@),
    {
        Error::new(ErrorKind::DataInvalid, joined(message, subject))
    }

    pub(crate) fn conflict(message: &str) -> (res: Self)
        ensures
            res@ == commit_conflict(message@),
    {
        Error::new(ErrorKind::CatalogCommitConflicts, String::from_str(message))
    }

    pub(crate) fn conflict_at(message: &str, subject: &str) -> (res: Self)
        ensures
            res@ == commit_conflict(message@ + subject@),
    {
        Error::new(ErrorKind::CatalogCommitConflicts, joined(message, subject))
    }
}

} // verus!
