//! Bottom-up pairwise reduction of a chunk sequence to its Merkle root.
//! Each round hashes adjacent pairs in place, substituting the cached
//! zero-subtree root of the current level for an absent right sibling, and
//! the sequence shrinks until one chunk — the root — remains.

use crate::chunk_store::ChunkStore;
use crate::hashing::{hash_concat, sha256_of};
use crate::zero_cache::{spec_zero_hash, zero_chunk, zero_chunk_vec, ZeroHashCache};
use crate::MAX_TREE_DEPTH;
use vstd::arithmetic::power2::*;
use vstd::prelude::*;

verus! {

/// One reduction round at the given level: adjacent chunks are hashed in
/// pairs, and a lone last chunk is paired with the zero-subtree root of
/// that level.
pub open spec fn spec_combine(s: Seq<Seq<u8>>, level: nat) -> Seq<Seq<u8>> {
    Seq::new(
        (s.len() + 1) / 2,
        |i: int|
            if 2 * i + 1 < s.len() {
                sha256_of(s[2 * i] + s[2 * i + 1])
            } else {
                sha256_of(s[2 * i] + spec_zero_hash(level))
            },
    )
}

/// The chunk sequence after `rounds` reduction rounds, the first of them at
/// `level`, each next one a level higher.
pub open spec fn spec_reduce_rounds(s: Seq<Seq<u8>>, level: nat, rounds: nat) -> Seq<Seq<u8>>
    decreases rounds,
{
    if rounds == 0 {
        s
    } else {
        spec_reduce_rounds(spec_combine(s, level), (level + 1) as nat, (rounds - 1) as nat)
    }
}

/// Running one more round after `rounds` rounds is the same as running
/// `rounds + 1` rounds from the start.
pub proof fn lemma_reduce_rounds_snoc(s: Seq<Seq<u8>>, level: nat, rounds: nat)
    ensures
        spec_combine(spec_reduce_rounds(s, level, rounds), (level + rounds) as nat)
            == spec_reduce_rounds(s, level, (rounds + 1) as nat),
    decreases rounds,
{
    if rounds > 0 {
        lemma_reduce_rounds_snoc(spec_combine(s, level), (level + 1) as nat, (rounds - 1) as nat);
    } else {
        assert(spec_reduce_rounds(s, level, 1) == spec_combine(s, level)) by {
            reveal_with_fuel(spec_reduce_rounds, 2);
        }
    }
}

/// The largest chunk count a reduction at the given height can bring down
/// to a single root chunk.
pub open spec fn spec_reduce_capacity(height: nat) -> nat {
    if height <= 2 {
        1
    } else {
        pow2((height - 2) as nat)
    }
}

/// The root of `chunks` reduced at the given height: the all-zero chunk for
/// an empty sequence, the first (and only) chunk where no round is needed,
/// and the single chunk left after `height - 2` rounds otherwise.
pub open spec fn spec_reduce(chunks: Seq<Seq<u8>>, height: nat) -> Seq<u8> {
    if chunks.len() == 0 {
        zero_chunk()
    } else if height <= 2 {
        chunks[0]
    } else {
        spec_reduce_rounds(chunks, 1, (height - 2) as nat)[0]
    }
}

/// An empty chunk list reduces to the all-zero chunk at every height.
pub proof fn lemma_reduce_empty(height: nat)
    ensures
        spec_reduce(Seq::<Seq<u8>>::empty(), height) == zero_chunk(),
{
}

/// A single chunk at height 1 is its own root: no hashing happens.
pub proof fn lemma_reduce_single(c: Seq<u8>)
    ensures
        spec_reduce(seq![c], 1) == c,
{
}

/// A round at most halves the chunk count, rounding up, and keeps the
/// sequence non-empty.
proof fn lemma_combine_len(s: Seq<Seq<u8>>, level: nat)
    requires
        s.len() >= 1,
    ensures
        spec_combine(s, level).len() == (s.len() + 1) / 2,
        1 <= spec_combine(s, level).len(),
{
}

/// Reduces the chunks to the Merkle root of a tree of the given height.
/// The store may hold at most one chunk per slot of the level being
/// reduced: `2^(height - 2)` slots above height 2, a single one below.
pub fn merkleize_chunks(chunks: ChunkStore, height: usize) -> (r: Vec<u8>)
    requires
        chunks.wf(),
        1 <= height <= MAX_TREE_DEPTH,
        chunks@.len() <= spec_reduce_capacity(height as nat),
    ensures
        r@ == spec_reduce(chunks@, height as nat),
        r@.len() == 32,
{
    let mut chunks = chunks;
    let ghost orig = chunks@;

    if chunks.len() == 0 {
        return zero_chunk_vec();
    }

    if height > 2 {
        let cache = ZeroHashCache::new();
        let mut level: usize = 1;
        while level < height - 1
            invariant
                3 <= height <= MAX_TREE_DEPTH,
                1 <= level <= height - 1,
                cache.wf(),
                chunks.wf(),
                orig.len() >= 1,
                chunks@ == spec_reduce_rounds(orig, 1, (level - 1) as nat),
                1 <= chunks@.len() <= pow2((height - 1 - level) as nat),
            decreases height - 1 - level,
        {
            let ghost cur = chunks@;
            let child_count = chunks.len();
            let parent_count = child_count / 2 + child_count % 2;
            assert(parent_count == (child_count + 1) / 2);

            let mut i: usize = 0;
            while i < parent_count
                invariant
                    i <= parent_count,
                    parent_count == (child_count + 1) / 2,
                    1 <= child_count,
                    chunks@.len() == child_count,
                    cur.len() == child_count,
                    chunks.wf(),
                    cache.wf(),
                    1 <= level <= MAX_TREE_DEPTH,
                    forall|j: int| 0 <= j < i ==> chunks@[j] == spec_combine(cur, level as nat)[j],
                    forall|j: int| 2 * i <= j < child_count ==> chunks@[j] == cur[j],
                decreases parent_count - i,
            {
                let left = chunks.get_slice(2 * i);
                let parent: Vec<u8> = if 2 * i + 1 < child_count {
                    let right = chunks.get_slice(2 * i + 1);
                    hash_concat(left, right)
                } else {
                    let right = cache.get(level);
                    hash_concat(left, right.as_slice())
                };
                chunks.set(i, parent);
                i = i + 1;
            }
            chunks.truncate(parent_count);
            assert(chunks@ =~= spec_combine(cur, level as nat));

            proof {
                lemma_reduce_rounds_snoc(orig, 1, (level - 1) as nat);
                lemma_combine_len(cur, level as nat);
                lemma_pow2_unfold((height - 1 - level) as nat);
            }
            level = level + 1;
        }
        proof {
            lemma_pow2_unfold(1);
            assert(pow2(0) == 1) by {
                lemma2_to64();
            }
        }
    }

    assert(chunks@.len() == 1);
    let root = chunks.into_vec();
    assert(root@ =~= spec_reduce(orig, height as nat));
    root
}

} // verus!
