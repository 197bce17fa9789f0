//! The one hashing primitive of the engine: SHA-256 over a byte string,
//! trusted to the `ring` crate, together with the spec-level name for its
//! result that every contract in the crate is written against.

use vstd::prelude::*;

verus! {

/// The SHA-256 digest of a byte sequence, as an uninterpreted name: the
/// engine never needs to know digest values, only that equal inputs give
/// equal digests.
pub uninterp spec fn sha256_of(input: Seq<u8>) -> Seq<u8>;

/// An input longer than this makes SHA-256's 64-bit bit counter overflow;
/// `ring` refuses such inputs, so the wrapper excludes them.
pub open spec fn max_hash_input() -> nat {
    0x1fff_ffff_ffff_ffff
}

/// Relies on `ring::digest::digest` with `ring::digest::SHA256`: the digest
/// is a function of the input bytes alone and is always 32 bytes long.
#[verifier::external_body]
pub fn hash(preimage: &[u8]) -> (r: Vec<u8>)
    requires
        preimage@.len() <= max_hash_input(),
    ensures
        r@ == sha256_of(preimage@),
        r@.len() == 32,
{
    ring::digest::digest(&ring::digest::SHA256, preimage).as_ref().to_vec()
}

/// Hash of the concatenation of two byte strings, typically two sibling
/// chunks whose parent node is being formed.
pub fn hash_concat(h1: &[u8], h2: &[u8]) -> (r: Vec<u8>)
    requires
        h1@.len() + h2@.len() <= max_hash_input(),
    ensures
        r@ == sha256_of(h1@ + h2@),
        r@.len() == 32,
{
    let mut preimage: Vec<u8> = Vec::new();
    preimage.extend_from_slice(h1);
    preimage.extend_from_slice(h2);
    assert(preimage@ =~= h1@ + h2@);
    hash(preimage.as_slice())
}

} // verus!
