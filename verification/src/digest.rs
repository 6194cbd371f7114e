//! SHA-256, as the `sha2` crate computes it.

use sha2::{Digest, Sha256};
use vstd::prelude::*;

verus! {

/// The SHA-256 digest of `message`.
pub uninterp spec fn sha256(message: Seq<u8>) -> Seq<u8>;

/// Hashes `message` with `sha2::Sha256::digest` (the `Digest::digest` of
/// `sha2` 0.10, which feeds the whole message to a fresh hasher and
/// finalizes it).
/// Claims that the 32 bytes returned are the SHA-256 digest of `message`.
#[verifier::external_body]
pub(crate) fn sha256_digest(message: &[u8]) -> (digest: [u8; 32])
    ensures
        digest@ == sha256(message@),
{
    Sha256::digest(message).into()
}

} // verus!
