use vstd::prelude::*;

verus! {

/// The Keccak-256 digest of a byte sequence.
pub uninterp spec fn keccak_of(data: Seq<u8>) -> Seq<u8>;

/// Relies on `keccak_hash::keccak`: a pure function of the input bytes that
/// returns a 32-byte digest.
#[verifier::external_body]
pub(crate) fn keccak256(data: &[u8]) -> (r: Vec<u8>)
    ensures
        r@ == keccak_of(data@),
        r@.len() == 32,
{
    keccak_hash::keccak(data).0.to_vec()
}

/// Hashes a caller's key into the path under which the trie stores it.
pub fn hash_key(key: &[u8]) -> (r: Vec<u8>)
    ensures
        r@ == keccak_of(key@),
        r@.len() == 32,
{
    keccak256(key)
}

} // verus!
