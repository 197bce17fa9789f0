//! The naive top-down Merkle root — split the leaves in half, recurse,
//! hash the two sub-roots — and the proof that the engine's bottom-up,
//! zero-hash-substituting reduction computes exactly that root over the
//! leaf list padded with zero chunks to a full tree.

use crate::hasher::{
    lemma_block_hashes_are_pairs, spec_block_count, spec_block_hashes, spec_hasher_root,
    spec_leaf_chunks, spec_pad_to_block, spec_pad_to_chunks,
};
use crate::hashing::sha256_of;
use crate::reducer::{spec_combine, spec_reduce, spec_reduce_capacity, spec_reduce_rounds};
use crate::zero_cache::{spec_zero_hash, zero_chunk};
use vstd::arithmetic::power2::*;
use vstd::prelude::*;

verus! {

/// The naive root of a perfect tree of chunks: a single chunk is its own
/// root, and the root of 2^k chunks hashes the roots of the two halves.
pub open spec fn spec_naive_root(leaves: Seq<Seq<u8>>) -> Seq<u8>
    decreases leaves.len(),
{
    if leaves.len() <= 1 {
        leaves[0]
    } else {
        sha256_of(
            spec_naive_root(leaves.take((leaves.len() / 2) as int)) + spec_naive_root(
                leaves.skip((leaves.len() / 2) as int),
            ),
        )
    }
}

/// `s` extended with copies of `fill` up to length `m`.
pub open spec fn pad_with(s: Seq<Seq<u8>>, fill: Seq<u8>, m: nat) -> Seq<Seq<u8>> {
    s + Seq::new((m - s.len()) as nat, |i: int| fill)
}

/// Hashing adjacent pairs does not change the naive root of a perfect
/// tree: the bottom level collapses into its parents.
proof fn lemma_naive_combine(s: Seq<Seq<u8>>, level: nat, k: nat)
    requires
        s.len() == pow2(k),
        k >= 1,
    ensures
        spec_naive_root(spec_combine(s, level)) == spec_naive_root(s),
    decreases k,
{
    lemma_pow2_unfold(k);
    lemma_pow2_pos((k - 1) as nat);
    let half = (s.len() / 2) as int;
    let l = s.take(half);
    let r = s.skip(half);
    if k == 1 {
        assert(pow2(0) == 1) by {
            lemma2_to64();
        }
        assert(s.len() == 2);
        let c = spec_combine(s, level);
        assert(c.len() == 1);
        assert(c[0] == sha256_of(s[0] + s[1]));
        assert(l =~= seq![s[0]]);
        assert(r =~= seq![s[1]]);
        assert(spec_naive_root(l) == s[0]);
        assert(spec_naive_root(r) == s[1]);
        assert(spec_naive_root(s) == sha256_of(s[0] + s[1]));
    } else {
        lemma_pow2_unfold((k - 1) as nat);
        lemma_pow2_pos((k - 2) as nat);
        let n = s.len() as int;
        assert(n == 2 * pow2((k - 1) as nat));
        assert(l.len() == pow2((k - 1) as nat));
        assert(r.len() == pow2((k - 1) as nat));
        assert(l.len() == 2 * pow2((k - 2) as nat));
        lemma_naive_combine(l, level, (k - 1) as nat);
        lemma_naive_combine(r, level, (k - 1) as nat);
        let c = spec_combine(s, level);
        let cl = spec_combine(l, level);
        let cr = spec_combine(r, level);
        assert(cl.len() == pow2((k - 2) as nat));
        assert(cr.len() == pow2((k - 2) as nat));
        assert(c.len() == pow2((k - 1) as nat));
        assert(c =~= cl + cr) by {
            assert forall|i: int| 0 <= i < c.len() implies c[i] == (cl + cr)[i] by {
                if i < cl.len() {
                    assert(2 * i + 1 < l.len());
                    assert(s[2 * i] == l[2 * i]);
                    assert(s[2 * i + 1] == l[2 * i + 1]);
                } else {
                    let j = i - cl.len();
                    assert(2 * j + 1 < r.len());
                    assert(s[2 * i] == r[2 * j]);
                    assert(s[2 * i + 1] == r[2 * j + 1]);
                }
            }
        }
        assert(c.len() == pow2((k - 1) as nat));
        let chalf = (c.len() / 2) as int;
        assert(c.take(chalf) =~= cl);
        assert(c.skip(chalf) =~= cr);
        assert(spec_naive_root(c) == sha256_of(spec_naive_root(cl) + spec_naive_root(cr)));
    }
}

/// Padding after a round with the next zero hash is the same as padding
/// before it with the current one: a pair of zero hashes combines into the
/// zero hash one level up, and a lone last chunk meets its substitute.
proof fn lemma_combine_pad(s: Seq<Seq<u8>>, level: nat, m: nat)
    requires
        1 <= s.len() <= 2 * m,
    ensures
        pad_with(spec_combine(s, level), spec_zero_hash((level + 1) as nat), m) =~= spec_combine(
            pad_with(s, spec_zero_hash(level), 2 * m),
            level,
        ),
{
    let lhs = pad_with(spec_combine(s, level), spec_zero_hash((level + 1) as nat), m);
    let big = pad_with(s, spec_zero_hash(level), 2 * m);
    let rhs = spec_combine(big, level);
    assert(lhs.len() == m);
    assert(rhs.len() == m);
    assert forall|i: int| 0 <= i < m implies lhs[i] == rhs[i] by {
        let n = s.len() as int;
        if 2 * i + 1 < n {
            assert(big[2 * i] == s[2 * i]);
            assert(big[2 * i + 1] == s[2 * i + 1]);
        } else if 2 * i < n {
            assert(big[2 * i] == s[2 * i]);
            assert(big[2 * i + 1] == spec_zero_hash(level));
        } else {
            assert(big[2 * i] == spec_zero_hash(level));
            assert(big[2 * i + 1] == spec_zero_hash(level));
            crate::zero_cache::lemma_zero_hash_step(level);
        }
    }
}

/// Running all rounds over a chunk list is the naive root of that list
/// padded with the starting level's zero hash to a full tree.
proof fn lemma_rounds_naive(s: Seq<Seq<u8>>, level: nat, k: nat)
    requires
        1 <= s.len() <= pow2(k),
    ensures
        spec_reduce_rounds(s, level, k).len() == 1,
        spec_reduce_rounds(s, level, k)[0] == spec_naive_root(
            pad_with(s, spec_zero_hash(level), pow2(k)),
        ),
    decreases k,
{
    if k == 0 {
        assert(pow2(0) == 1) by {
            lemma2_to64();
        }
        assert(pad_with(s, spec_zero_hash(level), 1) =~= s);
    } else {
        lemma_pow2_unfold(k);
        lemma_pow2_pos((k - 1) as nat);
        let c = spec_combine(s, level);
        assert(c.len() == (s.len() + 1) / 2);
        assert(1 <= c.len() <= pow2((k - 1) as nat));
        lemma_rounds_naive(c, (level + 1) as nat, (k - 1) as nat);
        lemma_combine_pad(s, level, pow2((k - 1) as nat));
        lemma_naive_combine(pad_with(s, spec_zero_hash(level), pow2(k)), level, k);
        assert(pad_with(s, spec_zero_hash(level), 2 * pow2((k - 1) as nat)) =~= pad_with(
            s,
            spec_zero_hash(level),
            pow2(k),
        ));
    }
}

/// The engine's reduction of a non-empty chunk list equals the naive root
/// of that list padded with the level-1 zero hash to the tree's width.
/// The chunks are the level-1 nodes of the tree — each stands for a hashed
/// pair of leaves.
pub proof fn lemma_reduce_equals_padded_naive(chunks: Seq<Seq<u8>>, height: nat)
    requires
        2 <= height,
        1 <= chunks.len() <= spec_reduce_capacity(height),
    ensures
        spec_reduce(chunks, height) == spec_naive_root(
            pad_with(chunks, spec_zero_hash(1), spec_reduce_capacity(height)),
        ),
{
    if height == 2 {
        assert(chunks.len() == 1);
        assert(pad_with(chunks, spec_zero_hash(1), 1) =~= chunks);
    } else {
        lemma_rounds_naive(chunks, 1, (height - 2) as nat);
    }
}

/// For a chunk count that exactly fills the tree, no padding happens and
/// the engine's reduction is the plain naive root.
pub proof fn lemma_reduce_equals_naive(chunks: Seq<Seq<u8>>, height: nat)
    requires
        2 <= height,
        chunks.len() == spec_reduce_capacity(height),
    ensures
        spec_reduce(chunks, height) == spec_naive_root(chunks),
{
    if height > 2 {
        lemma_pow2_pos((height - 2) as nat);
    }
    lemma_reduce_equals_padded_naive(chunks, height);
    assert(pad_with(chunks, spec_zero_hash(1), spec_reduce_capacity(height)) =~= chunks);
}

/// From the leaves themselves: hashing adjacent leaf pairs (a lone last
/// leaf against a zero chunk) and reducing the pair hashes yields the
/// naive root of the leaves padded with zero chunks to the tree's width.
pub proof fn lemma_pair_reduce_is_naive(leaves: Seq<Seq<u8>>, height: nat)
    requires
        2 <= height,
        1 <= leaves.len() <= pow2((height - 1) as nat),
    ensures
        spec_reduce(spec_combine(leaves, 0), height) == spec_naive_root(
            pad_with(leaves, zero_chunk(), pow2((height - 1) as nat)),
        ),
{
    lemma_pow2_unfold((height - 1) as nat);
    lemma_pow2_pos((height - 2) as nat);
    let m = pow2((height - 2) as nat);
    let c = spec_combine(leaves, 0);
    assert(1 <= c.len() <= m);
    assert(spec_reduce_capacity(height) == m) by {
        if height == 2 {
            lemma2_to64();
        }
    }
    lemma_reduce_equals_padded_naive(c, height);
    lemma_combine_pad(leaves, 0, m);
    let full = pad_with(leaves, spec_zero_hash(0), 2 * m);
    lemma_naive_combine(full, 0, (height - 1) as nat);
    assert(pad_with(leaves, zero_chunk(), pow2((height - 1) as nat)) =~= full);
    assert(pad_with(c, spec_zero_hash(1), m) =~= spec_combine(full, 0));
}


/// End to end, from the bytes: the root a packing hasher computes over a
/// byte stream is the naive Merkle root of the stream's 32-byte leaf
/// chunks — the last one zero-padded — with zero-chunk leaves filling the
/// tree out to its full width.
pub proof fn lemma_hasher_root_is_naive(b: Seq<u8>, height: nat)
    requires
        2 <= height,
        spec_block_count(b) <= spec_reduce_capacity(height),
    ensures
        spec_hasher_root(height, b, b) == spec_naive_root(
            pad_with(
                spec_leaf_chunks(spec_pad_to_chunks(b)),
                zero_chunk(),
                pow2((height - 1) as nat),
            ),
        ),
{
    let q = spec_pad_to_block(b);
    let blocks = spec_block_count(b) as int;
    assert(q.len() % 64 == 0 && q.len() == 64 * blocks && blocks >= 1) by (nonlinear_arith)
        requires
            q.len() == spec_pad_to_block(b).len(),
            blocks == spec_pad_to_block(b).len() / 64,
            (b.len() % 64 == 0 && b.len() > 0) ==> q.len() == b.len(),
            !(b.len() % 64 == 0 && b.len() > 0) ==> q.len() == b.len() + (64 - b.len() % 64),
    ;
    lemma_block_hashes_are_pairs(q, 0);
    let leaves_q = spec_leaf_chunks(q);
    assert(leaves_q.len() == 2 * blocks) by (nonlinear_arith)
        requires
            q.len() % 64 == 0,
            q.len() == 64 * blocks,
            leaves_q.len() == q.len() / 32,
    ;
    let width = pow2((height - 1) as nat);
    assert(leaves_q.len() <= width) by {
        if height == 2 {
            lemma2_to64();
        } else {
            lemma_pow2_unfold((height - 1) as nat);
        }
    }
    lemma_pair_reduce_is_naive(leaves_q, height);
    assert(spec_block_hashes(q) == spec_combine(leaves_q, 0));
    assert(spec_hasher_root(height, b, b) == spec_reduce(spec_combine(leaves_q, 0), height));

    let c = spec_pad_to_chunks(b);
    let leaves_b = spec_leaf_chunks(c);
    assert(c.len() % 32 == 0 && b.len() <= c.len() <= q.len()) by (nonlinear_arith)
        requires
            b.len() % 32 == 0 ==> c.len() == b.len(),
            b.len() % 32 != 0 ==> c.len() == b.len() + (32 - b.len() % 32),
            q.len() % 64 == 0,
            b.len() <= q.len(),
            (b.len() % 64 == 0 && b.len() > 0) ==> q.len() == b.len(),
            !(b.len() % 64 == 0 && b.len() > 0) ==> q.len() == b.len() + (64 - b.len() % 64),
    ;
    assert(forall|j: int| 0 <= j < b.len() ==> q[j] == b[j] && (j < c.len() ==> c[j] == b[j]));
    assert(forall|j: int| b.len() <= j < q.len() ==> q[j] == 0u8);
    assert(forall|j: int| b.len() <= j < c.len() ==> c[j] == 0u8);
    assert(leaves_b.len() * 32 == c.len()) by (nonlinear_arith)
        requires
            c.len() % 32 == 0,
            leaves_b.len() == c.len() / 32,
    ;
    assert(pad_with(leaves_q, zero_chunk(), width) =~= pad_with(leaves_b, zero_chunk(), width))
        by {
        let lq = pad_with(leaves_q, zero_chunk(), width);
        let lb = pad_with(leaves_b, zero_chunk(), width);
        assert forall|i: int| 0 <= i < width implies lq[i] == lb[i] by {
            if i < leaves_b.len() {
                assert(32 * i + 32 <= c.len());
                assert(lq[i] == q.subrange(32 * i, 32 * i + 32));
                assert(lb[i] == c.subrange(32 * i, 32 * i + 32));
                assert(q.subrange(32 * i, 32 * i + 32) =~= c.subrange(32 * i, 32 * i + 32));
            } else if i < leaves_q.len() {
                assert(lq[i] == q.subrange(32 * i, 32 * i + 32));
                assert(32 * i >= c.len() >= b.len());
                assert(q.subrange(32 * i, 32 * i + 32) =~= zero_chunk());
            }
        }
    }
}

/// The law behind `merkle_root`: with the height it derives for a byte
/// stream and a minimum leaf count, the root it promises is the naive
/// padded Merkle root of the stream's leaf chunks.
pub proof fn lemma_merkle_root_is_naive(b: Seq<u8>, minimum_chunk_count: nat, height: nat)
    requires
        height == crate::spec_height_for_leaf_count(
            crate::spec_merkle_leaf_count(b.len(), minimum_chunk_count),
        ),
    ensures
        spec_hasher_root(height, b, b) == spec_naive_root(
            pad_with(
                spec_leaf_chunks(spec_pad_to_chunks(b)),
                zero_chunk(),
                pow2((height - 1) as nat),
            ),
        ),
{
    let n = crate::spec_merkle_leaf_count(b.len(), minimum_chunk_count);
    crate::lemma_height_for_leaf_count(n);
    assert(b.len() <= 32 * n) by (nonlinear_arith)
        requires
            (b.len() + 31) / 32 <= n,
    ;
    crate::hasher::lemma_block_capacity(b, n, height);
    if height >= 2 {
        lemma_hasher_root_is_naive(b, height);
    } else {
        lemma2_to64();
        assert(n <= 1);
        assert(b.len() <= 32) by (nonlinear_arith)
            requires
                (b.len() + 31) / 32 <= 1,
        ;
        let c = spec_pad_to_chunks(b);
        let leaves = spec_leaf_chunks(c);
        if b.len() == 0 {
            assert(c.len() == 0);
            assert(leaves.len() == 0);
            let padded = pad_with(leaves, zero_chunk(), 1);
            assert(padded =~= seq![zero_chunk()]);
            assert(spec_naive_root(padded) == zero_chunk());
            assert(crate::bytes::spec_pad_chunk(b) =~= zero_chunk());
        } else {
            assert(c.len() == 32);
            assert(leaves.len() == 1);
            let padded = pad_with(leaves, zero_chunk(), 1);
            assert(padded =~= leaves);
            assert(spec_naive_root(padded) == leaves[0]);
            assert(leaves[0] =~= crate::bytes::spec_pad_chunk(b));
        }
    }
}

} // verus!
