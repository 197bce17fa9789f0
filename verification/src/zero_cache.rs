//! Cached roots of all-zero subtrees. `spec_zero_hash(h)` is the root of a
//! perfect binary tree of 2^h all-zero leaf chunks; the reducer substitutes
//! it for an absent right sibling instead of hashing zero chunks repeatedly.

use crate::hashing::{hash_concat, sha256_of};
use crate::MAX_TREE_DEPTH;
use vstd::prelude::*;

verus! {

/// The all-zero chunk: 32 zero bytes.
pub open spec fn zero_chunk() -> Seq<u8> {
    Seq::new(32, |i: int| 0u8)
}

/// Root of an all-zero subtree: index 0 is the zero chunk itself, and each
/// following index hashes two copies of the one before it.
pub open spec fn spec_zero_hash(height: nat) -> Seq<u8>
    decreases height,
{
    if height == 0 {
        zero_chunk()
    } else {
        sha256_of(
            spec_zero_hash((height - 1) as nat) + spec_zero_hash((height - 1) as nat),
        )
    }
}

/// Each zero-subtree root hashes two copies of the one below it.
pub proof fn lemma_zero_hash_step(i: nat)
    ensures
        spec_zero_hash(i + 1) == sha256_of(spec_zero_hash(i) + spec_zero_hash(i)),
{
}

/// The all-zero chunk as a fresh vector.
pub fn zero_chunk_vec() -> (r: Vec<u8>)
    ensures
        r@ == zero_chunk(),
        r@.len() == 32,
{
    let mut zero: Vec<u8> = Vec::new();
    while zero.len() < 32
        invariant
            zero@.len() <= 32,
            forall|i: int| 0 <= i < zero@.len() ==> zero@[i] == 0u8,
        decreases 32 - zero@.len(),
    {
        zero.push(0u8);
    }
    assert(zero@ =~= zero_chunk());
    zero
}

/// Table of zero-subtree roots for every height up to `MAX_TREE_DEPTH`,
/// computed once in order and then only read; reads may be shared freely.
pub struct ZeroHashCache {
    table: Vec<Vec<u8>>,
}

impl ZeroHashCache {
    /// The table holds exactly the zero-subtree roots, in height order.
    pub closed spec fn wf(&self) -> bool {
        &&& self.table@.len() == MAX_TREE_DEPTH + 1
        &&& forall|i: int|
            0 <= i <= MAX_TREE_DEPTH ==> (#[trigger] self.table@[i])@ == spec_zero_hash(
                i as nat,
            ) && self.table@[i]@.len() == 32
    }

    /// Builds the whole table, from the zero chunk upward.
    pub fn new() -> (c: Self)
        ensures
            c.wf(),
    {
        let zero = zero_chunk_vec();
        let mut table: Vec<Vec<u8>> = Vec::new();
        table.push(zero);
        while table.len() <= MAX_TREE_DEPTH
            invariant
                1 <= table@.len() <= MAX_TREE_DEPTH + 1,
                forall|i: int|
                    0 <= i < table@.len() ==> (#[trigger] table@[i])@ == spec_zero_hash(
                        i as nat,
                    ) && table@[i]@.len() == 32,
            decreases MAX_TREE_DEPTH + 1 - table@.len(),
        {
            let prev = &table[table.len() - 1];
            let next = hash_concat(prev.as_slice(), prev.as_slice());
            table.push(next);
        }
        ZeroHashCache { table }
    }

    /// The zero-subtree root for the given height.
    pub fn get(&self, height: usize) -> (r: &Vec<u8>)
        requires
            self.wf(),
            height <= MAX_TREE_DEPTH,
        ensures
            r@ == spec_zero_hash(height as nat),
            r@.len() == 32,
    {
        &self.table[height]
    }
}

} // verus!
