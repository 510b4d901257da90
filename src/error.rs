use vstd::prelude::*;

use cooplan_definitions_lib::error::{Error as LibError, ErrorKind as LibErrorKind};

verus! {

/// What went wrong while converting one source category.
#[derive(Debug, Copy, Clone, PartialEq, Eq, Structural)]
pub enum ErrorKind {
    MissingId,
    ParentNotFound,
    IdNotFound,
    ParentNotAvailable,
    FailedToBorrowCategory,
    Other,
}

/// A conversion error: its kind and a human-readable message.
#[derive(Debug)]
pub struct Error {
    pub kind: ErrorKind,
    pub message: String,
}

impl Error {
    pub fn new(kind: ErrorKind, message: &str) -> (r: Error)
        ensures
            r.kind == kind,
            r.message@ == message@,
    {
        Error { kind, message: message.to_string() }
    }

    pub fn kind(&self) -> (r: ErrorKind)
        ensures
            r == self.kind,
    {
        self.kind
    }

    /// The text that describes the error: its message.
    pub fn to_string(&self) -> (r: String)
        ensures
            r@ == self.message@,
    {
        self.message.clone()
    }
}

/// The kind that an error of the definitions library is translated to.
pub open spec fn kind_from_lib(kind: LibErrorKind) -> ErrorKind {
    match kind {
        LibErrorKind::FailedToBorrowCategory => ErrorKind::FailedToBorrowCategory,
        LibErrorKind::MissingId => ErrorKind::MissingId,
        LibErrorKind::ParentNotAvailable => ErrorKind::ParentNotAvailable,
        _ => ErrorKind::Other,
    }
}

impl From<LibError> for Error {
    fn from(error: LibError) -> (r: Error) {
        let kind = match error.kind {
            LibErrorKind::FailedToBorrowCategory => ErrorKind::FailedToBorrowCategory,
            LibErrorKind::MissingId => ErrorKind::MissingId,
            LibErrorKind::ParentNotAvailable => ErrorKind::ParentNotAvailable,
            _ => ErrorKind::Other,
        };
        Error { kind, message: error.message }
    }
}

impl vstd::std_specs::convert::FromSpecImpl<LibError> for Error {
    open spec fn obeys_from_spec() -> bool {
        true
    }

    open spec fn from_spec(error: LibError) -> Error {
        Error { kind: kind_from_lib(error.kind), message: error.message }
    }
}

} // verus!
