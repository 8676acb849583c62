use vstd::prelude::*;

verus! {

/// The SHA-256 digest of `bytes`: 32 bytes that depend on `bytes` alone.
pub uninterp spec fn sha256_of(bytes: Seq<u8>) -> Seq<u8>;

/// Relies on `sha2::Sha256::digest` (through `sha2::Digest`): it hashes the
/// bytes it is given with SHA-256 and returns the 32-byte digest.
#[verifier::external_body]
pub(crate) fn sha256(bytes: &Vec<u8>) -> (r: [u8; 32])
    ensures
        r@ == sha256_of(bytes@),
{
    <sha2::Sha256 as sha2::Digest>::digest(bytes.as_slice()).into()
}

} // verus!
