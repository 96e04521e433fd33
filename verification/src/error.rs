//! Stable error codes and the library's error value.
use vstd::prelude::*;

verus! {

/// Category of a failure. New codes are only ever appended.
#[derive(Debug, Clone, Copy, PartialEq, Eq, Structural)]
pub enum ErrorCode {
    /// An argument, or data read from an untrusted input, is not acceptable.
    InvalidArgument,
    /// A looked-up item does not exist.
    NotFound,
    /// The requested operation is not available.
    NotImplemented,
    /// A position or index lies outside the valid range.
    OutOfRange,
    /// Any other failure.
    Unknown,
}

/// A failure: a stable [`ErrorCode`] plus a human-readable message.
#[derive(Debug, Clone)]
pub struct Error {
    code: ErrorCode,
    message: String,
}

/// The library-wide result type.
pub type Result<T> = core::result::Result<T, Error>;

impl Error {
    /// The error's code, for use in contracts.
    pub closed spec fn kind(self) -> ErrorCode {
        self.code
    }

    /// The error's message, for use in contracts.
    pub closed spec fn text(self) -> Seq<char> {
        self.message@
    }

    /// Builds an error from a code and a message.
    pub fn new(code: ErrorCode, message: &str) -> (e: Error)
        ensures
            e.kind() == code,
            e.text() == message@,
    {
        Error { code, message: String::from_str(message) }
    }

    /// An [`ErrorCode::InvalidArgument`] error.
    pub fn invalid_argument(message: &str) -> (e: Error)
        ensures
            e.kind() == ErrorCode::InvalidArgument,
            e.text() == message@,
    {
        Error::new(ErrorCode::InvalidArgument, message)
    }

    /// An [`ErrorCode::NotFound`] error.
    pub fn not_found(message: &str) -> (e: Error)
        ensures
            e.kind() == ErrorCode::NotFound,
            e.text() == message@,
    {
        Error::new(ErrorCode::NotFound, message)
    }

    /// An [`ErrorCode::NotImplemented`] error.
    pub fn not_implemented(message: &str) -> (e: Error)
        ensures
            e.kind() == ErrorCode::NotImplemented,
            e.text() == message@,
    {
        Error::new(ErrorCode::NotImplemented, message)
    }

    /// An [`ErrorCode::OutOfRange`] error.
    pub fn out_of_range(message: &str) -> (e: Error)
        ensures
            e.kind() == ErrorCode::OutOfRange,
            e.text() == message@,
    {
        Error::new(ErrorCode::OutOfRange, message)
    }

    /// An [`ErrorCode::Unknown`] error.
    pub fn unknown(message: &str) -> (e: Error)
        ensures
            e.kind() == ErrorCode::Unknown,
            e.text() == message@,
    {
        Error::new(ErrorCode::Unknown, message)
    }

    /// The error's code.
    pub fn code(&self) -> (c: ErrorCode)
        ensures
            c == self.kind(),
    {
        self.code
    }

    /// The error's message.
    pub fn message(&self) -> (m: &str)
        ensures
            m@ == self.text(),
    {
        self.message.as_str()
    }
}

} // verus!
