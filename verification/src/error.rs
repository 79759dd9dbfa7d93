//! The ways in which decoding a frame fails.

use vstd::prelude::*;

verus! {

/// Why a byte sequence was not accepted as a frame.
#[derive(Debug, Clone, Copy, PartialEq, Eq, Structural)]
pub enum DecodeError {
    /// The command line names no command of the protocol.
    UnknownCommand,
    /// A header line does not hold exactly one colon, or a `content-length`
    /// value is not a decimal number that fits the machine word.
    MalformedHeader,
    /// The header block closed without a `content-length` header.
    MissingContentLength,
    /// The bytes before the terminating NUL are not as many as declared.
    BodyLengthMismatch { observed: usize, declared: usize },
    /// A header key or value is not valid UTF-8 text.
    InvalidText,
    /// The input ended before the frame did.
    Truncated,
}

} // verus!
