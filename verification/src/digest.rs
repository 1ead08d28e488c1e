//! SHA-1 digests, computed by the `sha1` crate.

use sha1::{Digest, Sha1};
use vstd::prelude::*;

verus! {

/// The number of bytes in a SHA-1 digest.
pub const HASH_LEN: usize = 20;

/// The SHA-1 digest of `data`.
pub uninterp spec fn sha1_digest(data: Seq<u8>) -> Seq<u8>;

/// Calls `Sha1::digest`. Trusted: the 20 bytes that come back are the SHA-1
/// digest of `data`, which this library knows only by the name `sha1_digest`.
#[verifier::external_body]
pub(crate) fn sha1_of(data: &[u8]) -> (digest: Vec<u8>)
    ensures
        digest@ == sha1_digest(data@),
        digest@.len() == HASH_LEN,
{
    Sha1::digest(data).to_vec()
}

} // verus!
