//! The ways encoding or decoding a blurhash can fail.

use vstd::prelude::*;

verus! {

/// Why a blurhash could not be encoded or decoded.
#[derive(Clone, Copy, Debug, PartialEq, Eq, Structural)]
pub enum Error {
    /// A component count lies outside `[1, 9]`.
    InvalidComponentCount,
    /// The string is shorter than the six-character header.
    TooShort,
    /// The string's length differs from the length its size flag calls for.
    LengthMismatch { actual: usize, expected: usize },
    /// A character is not part of the base-83 alphabet.
    UnknownCharacter,
    /// A decoded value does not fit in the result type.
    ValueOverflow,
}

} // verus!
