//! Merkleization engine for SSZ hash tree roots: a streaming hasher packs
//! value bytes into leaf chunks, pairs of chunks are hashed eagerly, and a
//! bottom-up reducer completes the binary tree with cached zero-subtree
//! hashes to yield a single 32-byte root.

pub mod bytes;
pub mod chunk_store;
pub mod collection;
pub mod hasher;
pub mod hashing;
pub mod impls;
pub mod naive;
pub mod reducer;
pub mod zero_cache;

use vstd::arithmetic::power2::pow2;
use vstd::prelude::*;

verus! {

/// The size in bytes of one chunk, the node size of the Merkle tree.
pub const BYTES_PER_CHUNK: usize = 32;

/// The size in bytes of a hash digest; equal to the chunk size.
pub const HASHSIZE: usize = 32;

/// The size in bytes of the preimage of one interior node: two chunks.
pub const MERKLE_HASH_CHUNK: usize = 64;

/// The largest supported tree height above a leaf; trees deeper than this
/// are a caller error.
pub const MAX_TREE_DEPTH: usize = 48;

/// The smallest height whose perfect tree holds at least `n` leaves: 1 for
/// zero or one leaf, and one more than the height for the ceiling of half
/// the leaves otherwise.
pub open spec fn spec_height_for_leaf_count(n: nat) -> nat
    decreases n,
{
    if n <= 1 {
        1
    } else {
        1 + spec_height_for_leaf_count((n + 1) / 2)
    }
}

/// A perfect tree of the height chosen for `n` leaves holds at least `n`
/// leaves, and, past a single leaf, the next smaller height does not.
pub proof fn lemma_height_for_leaf_count(n: nat)
    ensures
        1 <= spec_height_for_leaf_count(n),
        n >= 2 ==> 2 <= spec_height_for_leaf_count(n),
        n <= pow2((spec_height_for_leaf_count(n) - 1) as nat),
        n >= 2 ==> pow2((spec_height_for_leaf_count(n) - 2) as nat) < n,
    decreases n,
{
    if n <= 1 {
        vstd::arithmetic::power2::lemma2_to64();
    } else {
        let c = (n + 1) / 2;
        lemma_height_for_leaf_count(c);
        let h = spec_height_for_leaf_count(n);
        assert(h == 1 + spec_height_for_leaf_count(c));
        vstd::arithmetic::power2::lemma_pow2_unfold((h - 1) as nat);
        if c >= 2 {
            vstd::arithmetic::power2::lemma_pow2_unfold((h - 2) as nat);
        } else {
            vstd::arithmetic::power2::lemma2_to64();
        }
    }
}

/// The height needed for `leaf_count` leaf chunks.
pub fn height_for_leaf_count(leaf_count: usize) -> (h: usize)
    ensures
        h == spec_height_for_leaf_count(leaf_count as nat),
{
    let mut h: usize = 1;
    let mut m: usize = leaf_count;
    while m > 1
        invariant
            spec_height_for_leaf_count(leaf_count as nat) == h - 1 + spec_height_for_leaf_count(
                m as nat,
            ),
            1 <= h,
            leaf_count >= 1 ==> m >= 1 && h <= 1 + (leaf_count - m),
            leaf_count == 0 ==> m == 0 && h == 1,
        decreases m,
    {
        m = m / 2 + m % 2;
        h = h + 1;
    }
    h
}

/// Whether values share chunks: under `NotPacked` each value fills its own
/// zero-padded chunk; under `Packed` the given number of values share one.
#[derive(Clone, Copy, Debug, PartialEq, Eq, Structural)]
pub enum TreeHashPacking {
    NotPacked,
    Packed { packing_factor: usize },
}

impl TreeHashPacking {
    /// A policy is meaningful only with at least one value per chunk.
    pub open spec fn wf(self) -> bool {
        match self {
            TreeHashPacking::NotPacked => true,
            TreeHashPacking::Packed { packing_factor } => packing_factor >= 1,
        }
    }

    /// The number of leaf chunks `value_count` values occupy: one per value
    /// unpacked, the ceiling of `value_count / packing_factor` packed.
    pub open spec fn spec_leaf_count(self, value_count: nat) -> nat {
        match self {
            TreeHashPacking::NotPacked => value_count,
            TreeHashPacking::Packed { packing_factor } => (value_count + packing_factor - 1) as nat
                / packing_factor as nat,
        }
    }

    /// The tree height needed for `value_count` values under this policy.
    pub open spec fn spec_height_for_value_count(self, value_count: nat) -> nat {
        spec_height_for_leaf_count(self.spec_leaf_count(value_count))
    }

    /// The tree height needed for `value_count` values under this policy.
    pub fn height_for_value_count(&self, value_count: usize) -> (h: usize)
        requires
            self.wf(),
        ensures
            h == self.spec_height_for_value_count(value_count as nat),
    {
        let num_leaves: usize = match self {
            TreeHashPacking::NotPacked => value_count,
            TreeHashPacking::Packed { packing_factor } => {
                let f = *packing_factor;
                assert(f >= 1);
                let q = value_count / f;
                let leaves = if value_count % f != 0 {
                    assert(f >= 2) by (nonlinear_arith)
                        requires
                            f >= 1,
                            value_count % f != 0,
                    ;
                    assert(q < usize::MAX) by (nonlinear_arith)
                        requires
                            f >= 2,
                            q == value_count as int / f as int,
                            0 <= value_count <= usize::MAX,
                    ;
                    q + 1
                } else {
                    q
                };
                assert(leaves == (value_count + f - 1) as nat / f as nat) by (nonlinear_arith)
                    requires
                        f >= 1,
                        leaves == value_count as int / f as int + if value_count as int % f as int
                            != 0 {
                            1int
                        } else {
                            0int
                        },
                ;
                leaves
            },
        };
        height_for_leaf_count(num_leaves)
    }
}

/// The number of leaf chunks `merkle_root` hashes over: the chunks the
/// bytes fill, or the requested minimum if that is larger.
pub open spec fn spec_merkle_leaf_count(len: nat, minimum_chunk_count: nat) -> nat {
    let data_chunks = (len + 31) / 32;
    if data_chunks < minimum_chunk_count {
        minimum_chunk_count
    } else {
        data_chunks
    }
}

/// The Merkle root of `bytes` split into 32-byte leaf chunks (the last one
/// zero-padded), over a tree just high enough for those chunks or for
/// `minimum_chunk_count` leaves, whichever needs more; the missing leaves
/// are zero chunks.
pub fn merkle_root(bytes: &[u8], minimum_chunk_count: usize) -> (r: Vec<u8>)
    requires
        spec_height_for_leaf_count(spec_merkle_leaf_count(bytes@.len(), minimum_chunk_count as nat))
            <= MAX_TREE_DEPTH,
    ensures
        r@ == crate::hasher::spec_hasher_root(
            spec_height_for_leaf_count(
                spec_merkle_leaf_count(bytes@.len(), minimum_chunk_count as nat),
            ),
            bytes@,
            bytes@,
        ),
        r@.len() == 32,
{
    let len = bytes.len();
    let data_chunks = len / 32 + if len % 32 != 0 {
        1
    } else {
        0
    };
    assert(data_chunks == (len + 31) as nat / 32) by (nonlinear_arith)
        requires
            data_chunks == len as int / 32 + if len as int % 32 != 0 {
                1int
            } else {
                0int
            },
            0 <= len,
    ;
    let leaf_count = if data_chunks < minimum_chunk_count {
        minimum_chunk_count
    } else {
        data_chunks
    };
    let height = height_for_leaf_count(leaf_count);
    proof {
        lemma_height_for_leaf_count(leaf_count as nat);
        assert(len <= 32 * leaf_count) by (nonlinear_arith)
            requires
                (len + 31) as int / 32 <= leaf_count,
                0 <= len,
        ;
        crate::hasher::lemma_block_capacity(bytes@, leaf_count as nat, height as nat);
    }
    let mut hasher = crate::hasher::VecTreeHasher::packed(height);
    hasher.update(bytes);
    assert(hasher.spec_processed() =~= bytes@);
    assert(hasher.spec_fed() =~= bytes@);
    hasher.finish()
}

/// Returns the chunk hashing `root` together with the little-endian
/// encoding of `length`, zero-padded to a chunk: the finishing step for the
/// root of a variable-length collection.
pub fn mix_in_length(root: &[u8], length: usize) -> (r: Vec<u8>)
    requires
        root@.len() + 32 <= crate::hashing::max_hash_input(),
    ensures
        r@ == crate::hashing::sha256_of(root@ + crate::bytes::spec_le_bytes(length as nat, 32)),
        r@.len() == 32,
{
    let length_bytes = crate::bytes::le_chunk_of_usize(length);
    crate::hashing::hash_concat(root, length_bytes.as_slice())
}

/// A value with a tree hash root: it can hand its encoded bytes to the
/// hasher of a containing collection, declare how it packs, and produce its
/// own single-chunk root.
pub trait TreeHash {
    /// The value's encoded bytes, as fed to a containing collection's
    /// hasher.
    spec fn spec_leaf_bytes(&self) -> Seq<u8>;

    /// The value's 32-byte root chunk.
    spec fn spec_root(&self) -> Seq<u8>;

    /// The packing policy of this type.
    spec fn spec_packing() -> TreeHashPacking;

    /// Hands the value's encoded bytes out for a containing collection to
    /// apply to its hasher.
    fn tree_hash_apply_root(&self) -> (bytes: Vec<u8>)
        ensures
            bytes@ == self.spec_leaf_bytes(),
    ;

    /// The packing policy of this type.
    fn tree_hash_packing() -> (p: TreeHashPacking)
        ensures
            p == Self::spec_packing(),
            p.wf(),
    ;

    /// The value's root chunk.
    fn tree_hash_root(&self) -> (r: Vec<u8>)
        ensures
            r@ == self.spec_root(),
            r@.len() == 32,
    ;
}

/// A value whose signing root is computed over a subset of its fields;
/// offered for callers to implement beside `TreeHash`.
pub trait SignedRoot: TreeHash {
    /// The root the value is signed over.
    fn signed_root(&self) -> Vec<u8>;
}

} // verus!
