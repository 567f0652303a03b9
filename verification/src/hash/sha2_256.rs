//! SHA-256, as the transcript hash.
use sha2::{Digest, Sha256};
use vstd::prelude::*;

verus! {

/// Width of a SHA-256 digest in bytes.
pub const DIGEST_SIZE: usize = 32;

/// The SHA-256 digest of `data`: 32 bytes that depend on `data` alone.
pub uninterp spec fn sha256(data: Seq<u8>) -> Seq<u8>;

/// The digest of `data`, computed by `Sha256::digest` of sha2.
#[verifier::external_body]
fn sha256_digest(data: &[u8]) -> (r: [u8; 32])
    ensures
        r@ == sha256(data@),
{
    Sha256::digest(data).into()
}

/// `sha256` applied `n` times.
pub open spec fn sha256_iterated(data: Seq<u8>, n: nat) -> Seq<u8>
    decreases n,
{
    if n == 0 {
        data
    } else {
        sha256(sha256_iterated(data, (n - 1) as nat))
    }
}

#[derive(Clone, Copy, Debug)]
pub struct SHA256hasher {}

impl SHA256hasher {
    /// The digest of the first `input_len` bytes of `input`.
    pub fn hash(&self, input: &[u8], input_len: usize) -> (output: [u8; 32])
        requires
            input_len <= input@.len(),
        ensures
            output@ == sha256(input@.subrange(0, input_len as int)),
    {
        sha256_digest(vstd::slice::slice_subrange(input, 0, input_len))
    }

    /// Replaces the 32 bytes of `buffer` by their own digest.
    pub fn hash_inplace(&self, buffer: &mut [u8; 32])
        ensures
            final(buffer)@ == sha256(old(buffer)@),
    {
        let digest = sha256_digest(buffer.as_slice());
        *buffer = digest;
    }
}

} // verus!
