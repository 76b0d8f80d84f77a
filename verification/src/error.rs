use vstd::prelude::*;

verus! {

/// Why a textual identifier failed to parse.
#[derive(Clone, Copy, Debug, PartialEq, Eq, Structural)]
pub enum ParseError {
    /// The input string is empty.
    Empty,
    /// The multibase prefix character is not one this library understands.
    BadPrefix,
    /// A character after the prefix is outside the base32 alphabet.
    BadCharacter,
    /// The number of base32 characters matches no byte sequence.
    BadLength,
    /// The decoded byte stream ended in the middle of a field.
    Truncated,
    /// A varint does not fit in 64 bits.
    MalformedVarint,
    /// The declared digest length differs from the bytes that remain.
    LengthMismatch,
}

/// An identifier could not be built: the digest is too long to wrap.
#[derive(Clone, Copy, Debug, PartialEq, Eq, Structural)]
pub struct EncodingError;

} // verus!
