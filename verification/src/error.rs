//! The error type that the library's fallible operations return.
use vstd::prelude::*;

verus! {

/// What went wrong, in the categories the application reports.
#[derive(PartialEq, Eq, Structural, Debug, Clone, Copy)]
pub enum ErrorKind {
    InvalidInput,
    NotFound,
    Db,
    Io,
    Git,
    Network,
    Internal,
}

/// An error with its category and a message for the user.
#[derive(Debug)]
pub struct AppError {
    pub kind: ErrorKind,
    pub message: String,
}

impl AppError {
    /// An error of the given kind with a literal message.
    pub fn new(kind: ErrorKind, message: &str) -> (r: AppError)
        ensures
            r.kind == kind,
            r.message@ == message@,
    {
        AppError { kind, message: message.to_string() }
    }

    /// An "invalid input" error.
    pub fn invalid_input(message: &str) -> (r: AppError)
        ensures
            r.kind == ErrorKind::InvalidInput,
            r.message@ == message@,
    {
        AppError::new(ErrorKind::InvalidInput, message)
    }

    /// A "not found" error.
    pub fn not_found(message: &str) -> (r: AppError)
        ensures
            r.kind == ErrorKind::NotFound,
            r.message@ == message@,
    {
        AppError::new(ErrorKind::NotFound, message)
    }
}

} // verus!
