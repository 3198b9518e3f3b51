//! The error taxonomy shared by all three codecs.

use vstd::prelude::*;

verus! {

/// Failure of a decode or encode operation.
///
/// Every error is terminal for the call that raised it: no partial results
/// are returned and nothing is retried.
#[derive(Debug)]
pub enum ParserError {
    /// An underlying stream failed; never produced by the codecs themselves,
    /// which work on in-memory values.
    Io(String),
    /// A field's textual representation could not be converted to its
    /// numeric type.
    Parse(String),
    /// Structural violation of the expected layout: wrong magic marker,
    /// truncated record, too few CSV fields, a missing required text key,
    /// a line without a colon, or an unrecognized type or status label.
    Format(String),
    /// Decoded description bytes are not valid UTF-8.
    Utf8(String),
}

/// The kind of a [`ParserError`], with the message abstracted away.
#[derive(Debug, Clone, Copy, PartialEq, Eq, Structural)]
pub enum ErrKind {
    Io,
    Parse,
    Format,
    Utf8,
}

/// The kind of an error value.
pub open spec fn err_kind(e: ParserError) -> ErrKind {
    match e {
        ParserError::Io(_) => ErrKind::Io,
        ParserError::Parse(_) => ErrKind::Parse,
        ParserError::Format(_) => ErrKind::Format,
        ParserError::Utf8(_) => ErrKind::Utf8,
    }
}

impl ParserError {
    /// The error's human-readable message.
    pub fn message(&self) -> (r: &String)
        ensures
            (match self {
                ParserError::Io(m) => r == m,
                ParserError::Parse(m) => r == m,
                ParserError::Format(m) => r == m,
                ParserError::Utf8(m) => r == m,
            }),
    {
        match self {
            ParserError::Io(m) => m,
            ParserError::Parse(m) => m,
            ParserError::Format(m) => m,
            ParserError::Utf8(m) => m,
        }
    }
}

} // verus!
