//! Why a byte stream was refused.

use vstd::prelude::*;

verus! {

/// The ways in which decoding fails.
#[derive(Debug, Clone, Copy, PartialEq, Eq, Structural)]
pub enum DecodeError {
    /// The stream ended inside a field of known size.
    Truncated,
    /// A tag names no variant.
    InvalidDiscriminant,
    /// A length prefix announces more than the stream still holds.
    InvalidLength,
    /// A nested value is not in its canonical form or is out of its field's range.
    Malformed,
}

/// What a decoder returned, with the value by its view and the position as a
/// mathematical integer: the shape in which the wire forms are specified.
pub open spec fn outcome_view<T: View>(r: Result<(T, usize), DecodeError>) -> Result<
    (T::V, int),
    DecodeError,
> {
    match r {
        Ok((value, next)) => Ok((value@, next as int)),
        Err(e) => Err(e),
    }
}

/// What a decoder returned, for a value that is its own model.
pub open spec fn outcome<T>(r: Result<(T, usize), DecodeError>) -> Result<(T, int), DecodeError> {
    match r {
        Ok((value, next)) => Ok((value, next as int)),
        Err(e) => Err(e),
    }
}

/// The decoder, where it succeeded, stopped at a position after `pos` and
/// within a stream of `len` bytes.
pub open spec fn advanced<T>(r: Result<(T, usize), DecodeError>, pos: usize, len: nat) -> bool {
    r matches Ok((_, next)) ==> pos < next <= len
}

} // verus!
