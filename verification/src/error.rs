//! Error taxonomy: codec failures are distinguished from debug-symbol
//! database failures, so a front end can report bad user input separately
//! from internal errors.

use vstd::prelude::*;
use vstd::string::StringExecFns;

verus! {

/// An error of the integer codec.
#[derive(Clone, Copy, Debug, PartialEq, Eq, Structural)]
pub enum CodecError {
    /// The byte stream ended before a terminating digit was read.
    EndOfStream,
    /// A byte outside the 64-symbol alphabet was encountered, or the digits
    /// do not denote a value of the supported 32-bit range.
    InvalidDigit,
}

/// An error of the resolution pipeline.
#[derive(Debug)]
pub enum Error {
    /// The trace token could not be decoded.
    Codec(CodecError),
    /// The debug-symbol database could not be opened, or a query against it
    /// failed; the payload is the diagnostic text of the underlying failure.
    Symbols(String),
}

impl CodecError {
    /// A short description of the error.
    pub fn message(&self) -> (r: String)
        ensures
            r@ == match *self {
                CodecError::EndOfStream => "unexpected end of stream"@,
                CodecError::InvalidDigit => "invalid digit"@,
            },
    {
        match self {
            CodecError::EndOfStream => String::from_str("unexpected end of stream"),
            CodecError::InvalidDigit => String::from_str("invalid digit"),
        }
    }
}

impl Error {
    /// A description of the error: its kind, then the underlying detail.
    pub fn message(&self) -> (r: String)
        ensures
            r@ == match self {
                Error::Codec(e) => "CodecError: "@ + match *e {
                    CodecError::EndOfStream => "unexpected end of stream"@,
                    CodecError::InvalidDigit => "invalid digit"@,
                },
                Error::Symbols(text) => "SymbolDatabaseError: "@ + text@,
            },
    {
        match self {
            Error::Codec(e) => {
                let mut s = String::from_str("CodecError: ");
                let detail = e.message();
                s.append(detail.as_str());
                s
            },
            Error::Symbols(text) => {
                let mut s = String::from_str("SymbolDatabaseError: ");
                s.append(text.as_str());
                s
            },
        }
    }
}

} // verus!
