//! Content hashing of values with SHA-256.

use vstd::prelude::*;

verus! {

/// The SHA-256 digest of a byte string, as the `sha2` crate computes it.
pub uninterp spec fn sha256(data: Seq<u8>) -> Seq<u8>;

/// Calls `sha2::Sha256::digest` (through `sha2::Digest`) on `data`.  Trusted:
/// the 32 bytes returned are the SHA-256 digest of exactly the bytes given.
#[verifier::external_body]
pub(crate) fn sha256_digest(data: &[u8]) -> (r: [u8; 32])
    ensures
        r@ == sha256(data@),
{
    <sha2::Sha256 as sha2::Digest>::digest(data).into()
}

/// Values with a deterministic SHA-256 hash.
pub trait Sha256Hash {
    /// The bytes that are fed to SHA-256 for this value.
    spec fn hash_input(&self) -> Seq<u8>;

    /// Appends the bytes that are fed to SHA-256 for this value to `input`.
    fn sha256_hash(&self, input: &mut Vec<u8>)
        ensures
            final(input)@ == old(input)@ + self.hash_input(),
    ;

    /// The SHA-256 hash of this value.
    fn hash(&self) -> (r: [u8; 32])
        ensures
            r@ == sha256(self.hash_input()),
    {
        let mut input: Vec<u8> = Vec::new();
        self.sha256_hash(&mut input);
        assert(input@ =~= self.hash_input());
        sha256_digest(input.as_slice())
    }
}

} // verus!
