//! The hash primitive.
//!
//! The core treats it as a function from bytes to 32 bytes and proves nothing
//! about how it is computed.

use blake2::digest::{Input, VariableOutput};
use vstd::prelude::*;

verus! {

/// The 256-bit unkeyed BLAKE2b digest of `data`.
pub uninterp spec fn blake2b_256(data: Seq<u8>) -> Seq<u8>;

/// Two different byte strings with the same digest.
pub open spec fn collide(a: Seq<u8>, b: Seq<u8>) -> bool {
    a != b && blake2b_256(a) == blake2b_256(b)
}

/// Makes a `blake2::VarBlake2b` with an empty key and an output size of 32,
/// feeds it `data` with `Input::input`, takes the digest with
/// `VariableOutput::vec_result` and copies it into `dest`. The contract claims
/// that the 32 bytes depend on `data` alone; `blake2b_256` is the name of that
/// dependence. This is not proved.
#[verifier::external_body]
pub(crate) fn blake2_256_into(data: &[u8], dest: &mut [u8; 32])
    ensures
        final(dest)@ == blake2b_256(data@),
{
    let mut hasher = blake2::VarBlake2b::new_keyed(&[], 32);
    hasher.input(data);
    let result = hasher.vec_result();
    dest.copy_from_slice(&result);
}

} // verus!
