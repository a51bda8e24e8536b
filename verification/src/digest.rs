//! SHA-256, computed by the `sha2` crate.

use vstd::prelude::*;
use sha2::{Digest, Sha256};

verus! {

/// The SHA-256 digest of `data`, as FIPS 180-4 defines it.
pub uninterp spec fn sha256_digest(data: Seq<u8>) -> Seq<u8>;

/// Hashes `data` with `sha2::Sha256` (`new`, `update`, `finalize`).
/// Trusted: the 32 bytes returned are the digest that `sha256_digest` names; the
/// digest is a function of the input bytes alone and its output size is 32 bytes
/// (`OutputSize = U32` in the crate's `Sha256VarCore`).
#[verifier::external_body]
pub(crate) fn sha256(data: &[u8]) -> (digest: Vec<u8>)
    ensures
        digest@ == sha256_digest(data@),
        digest@.len() == 32,
{
    let mut hasher = Sha256::new();
    hasher.update(data);
    hasher.finalize().to_vec()
}

} // verus!
