//! The library's error type.

use vstd::prelude::*;

verus! {

/// The kind of an input/output failure, as `std::io::ErrorKind` classifies
/// it; kinds without their own variant are `Other`.
#[derive(Debug, Clone, Copy, PartialEq, Eq, Structural)]
pub enum IoErrorKind {
    NotFound,
    PermissionDenied,
    AlreadyExists,
    InvalidInput,
    InvalidData,
    UnexpectedEof,
    Other,
}

/// What can go wrong across the library.
#[derive(Debug)]
pub enum RsledgerError {
    /// Something could not be parsed: the item and the reason.
    ParseError(String, String),
    /// An input/output operation failed: its kind and message.
    IoError(IoErrorKind, String),
    /// Something is invalid: the item and the reason.
    ValidationError(String, String),
    /// The command-line arguments are invalid: the reason.
    CliError(String),
}

/// The `Display` text of each variant.
pub open spec fn error_str(e: RsledgerError) -> Seq<char> {
    match e {
        RsledgerError::ParseError(item, reason) => "Could not parse "@ + item@ + ": "@ + reason@,
        RsledgerError::IoError(_, m) => "IO error: "@ + m@,
        RsledgerError::ValidationError(item, reason) => "Validation error in "@ + item@ + ": "@ + reason@,
        RsledgerError::CliError(m) => "CLI error: "@ + m@,
    }
}

impl RsledgerError {
    /// The error message, as `Display` shows it.
    pub fn to_string(&self) -> (r: String)
        ensures
            r@ == error_str(*self),
    {
        match self {
            RsledgerError::ParseError(item, reason) => {
                let mut s = "Could not parse ".to_owned();
                s.append(item.as_str());
                s.append(": ");
                s.append(reason.as_str());
                s
            },
            RsledgerError::IoError(_, m) => {
                let mut s = "IO error: ".to_owned();
                s.append(m.as_str());
                s
            },
            RsledgerError::ValidationError(item, reason) => {
                let mut s = "Validation error in ".to_owned();
                s.append(item.as_str());
                s.append(": ");
                s.append(reason.as_str());
                s
            },
            RsledgerError::CliError(m) => {
                let mut s = "CLI error: ".to_owned();
                s.append(m.as_str());
                s
            },
        }
    }
}

} // verus!
