use vstd::prelude::*;

verus! {

/// The category of a failure, in the manner of `std::io::ErrorKind`.
#[derive(Debug, Clone, Copy, PartialEq, Eq, Structural)]
pub enum ErrorKind {
    /// The input ended before a complete value could be read.
    UnexpectedEof,
    /// The input was read but holds a value the format does not allow.
    InvalidData,
    /// An argument given by the caller is not acceptable.
    InvalidInput,
    /// A failure that fits none of the other kinds.
    Other,
}

/// A failure to read or write a format, with a short fixed description.
#[derive(Debug, Clone, Copy)]
pub struct Error {
    pub kind: ErrorKind,
    pub message: &'static str,
}

/// An error of the given kind.
pub fn error(kind: ErrorKind, message: &'static str) -> (e: Error)
    ensures
        e.kind == kind,
        e.message == message,
{
    Error { kind, message }
}

/// An `InvalidData` error.
pub fn invalid(message: &'static str) -> (e: Error)
    ensures
        e.kind == ErrorKind::InvalidData,
        e.message == message,
{
    Error { kind: ErrorKind::InvalidData, message }
}

/// An `UnexpectedEof` error.
pub fn eof(message: &'static str) -> (e: Error)
    ensures
        e.kind == ErrorKind::UnexpectedEof,
        e.message == message,
{
    Error { kind: ErrorKind::UnexpectedEof, message }
}

} // verus!
