//! BLAKE3, used to expand secret keys and to derive nonces.
use vstd::prelude::*;

verus! {

/// The first 64 bytes of BLAKE3's extendable output for `input`.
pub uninterp spec fn blake3_xof64(input: Seq<u8>) -> [u8; 64];

/// `blake3::Hasher::new`, `update(input)`, `finalize_xof` and `fill` of a
/// 64-byte buffer: the first 64 bytes of BLAKE3's extendable output for
/// `input`. Feeding a hasher several pieces is the same as feeding it their
/// concatenation, so callers pass the concatenation.
#[verifier::external_body]
pub(crate) fn blake3_xof_64(input: &[u8]) -> (out: [u8; 64])
    ensures
        out == blake3_xof64(input@),
{
    let mut hasher = blake3::Hasher::new();
    hasher.update(input);
    let mut out = [0u8; 64];
    hasher.finalize_xof().fill(&mut out);
    out
}

} // verus!
