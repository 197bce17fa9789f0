//! Tree hash roots of homogeneous sequences, built the way every concrete
//! collection type is meant to: derive the height from the element count
//! and the element type's packing policy, stream each element's encoded
//! bytes through an incremental hasher, and take its root.

use crate::hasher::{spec_absorbed, spec_hasher_root, VecTreeHasher};
use crate::{TreeHash, TreeHashPacking, MAX_TREE_DEPTH};
use vstd::prelude::*;

verus! {

/// The byte streams of a sequence's elements, one after the other.
pub open spec fn spec_concat(parts: Seq<Seq<u8>>) -> Seq<u8>
    decreases parts.len(),
{
    if parts.len() == 0 {
        Seq::empty()
    } else {
        spec_concat(parts.drop_last()) + parts.last()
    }
}

/// What a hasher absorbs when the byte streams of a sequence's elements
/// are pushed one by one.
pub open spec fn spec_stream_of(parts: Seq<Seq<u8>>, pack: bool) -> Seq<u8>
    decreases parts.len(),
{
    if parts.len() == 0 {
        Seq::empty()
    } else {
        spec_stream_of(parts.drop_last(), pack) + spec_absorbed(parts.last(), pack)
    }
}

/// For a packing hasher the absorbed stream is exactly the concatenation
/// of the pushes: however a byte sequence is split across `update` calls,
/// the hasher absorbs the same stream, so `finish` — a function of that
/// stream — returns the same root.
pub proof fn lemma_stream_packed_is_concat(pushes: Seq<Seq<u8>>)
    ensures
        spec_stream_of(pushes, true) == spec_concat(pushes),
    decreases pushes.len(),
{
    if pushes.len() > 0 {
        lemma_stream_packed_is_concat(pushes.drop_last());
    }
}

/// The encoded leaf bytes of each value of a sequence.
pub open spec fn spec_leaf_parts<T: TreeHash>(v: Seq<T>) -> Seq<Seq<u8>> {
    v.map_values(|t: T| t.spec_leaf_bytes())
}

/// The element byte streams a collection of `T` may hold: under packing,
/// every element is exactly one packed slot wide; without it, every
/// element fits one chunk.
pub open spec fn spec_parts_sized(parts: Seq<Seq<u8>>, packing: TreeHashPacking) -> bool {
    match packing {
        TreeHashPacking::Packed { packing_factor } => forall|i: int|
            0 <= i < parts.len() ==> (#[trigger] parts[i]).len() * packing_factor == 32,
        TreeHashPacking::NotPacked => forall|i: int|
            0 <= i < parts.len() ==> (#[trigger] parts[i]).len() <= 32,
    }
}

/// Each element contributes exactly one packed slot to the hashed stream,
/// or at most one chunk when packing is off.
proof fn lemma_stream_len(parts: Seq<Seq<u8>>, packing: TreeHashPacking)
    requires
        packing.wf(),
        spec_parts_sized(parts, packing),
    ensures
        packing is Packed ==> spec_stream_of(parts, true).len() * packing->packing_factor == 32
            * parts.len(),
        packing is NotPacked ==> spec_stream_of(parts, false).len() <= 32 * parts.len(),
    decreases parts.len(),
{
    let pack = packing is Packed;
    if parts.len() > 0 {
        let tail = parts.drop_last();
        assert forall|i: int| 0 <= i < tail.len() implies #[trigger] tail[i] == parts[i] by {}
        assert(spec_parts_sized(tail, packing));
        lemma_stream_len(tail, packing);
        let last = parts.last();
        match packing {
            TreeHashPacking::Packed { packing_factor } => {
                let f = packing_factor as int;
                let tail_len = spec_stream_of(parts.drop_last(), pack).len() as int;
                let last_len = last.len() as int;
                assert(last == parts[parts.len() - 1]);
                assert(last_len * f == 32);
                assert(tail_len * f == 32 * (parts.len() - 1));
                assert((tail_len + last_len) * f == tail_len * f + last_len * f)
                    by (nonlinear_arith);
                assert(spec_stream_of(parts, true).len() == tail_len + last_len);
                assert(spec_stream_of(parts, true).len() * packing_factor == 32 * parts.len());
            },
            TreeHashPacking::NotPacked => {
                if last.len() == 0 {
                    assert(spec_absorbed(last, pack).len() == 0);
                } else if last.len() == 32 {
                    assert(last.take(32) =~= last);
                    assert(last.skip(32) =~= Seq::<u8>::empty());
                    assert(crate::hasher::spec_padded_slices(last.skip(32))
                        =~= Seq::<u8>::empty());
                    assert(spec_absorbed(last, pack).len() == 32);
                } else {
                    assert(spec_absorbed(last, pack).len() == 32);
                }
            },
        }
    } else {
        assert(spec_stream_of(parts, true).len() == 0);
        assert(spec_stream_of(parts, false).len() == 0);
        if packing is Packed {
            let f = packing->packing_factor as int;
            assert(0 * f == 0) by (nonlinear_arith);
        }
    }
}

/// The tree hash root of a homogeneous sequence of values: the height
/// covers the leaf chunks the elements occupy under the type's packing
/// policy, every element's bytes stream through one incremental hasher,
/// and the hasher's root is the sequence's root. The height must not
/// exceed the maximum depth.
pub fn vec_tree_hash_root<T: TreeHash>(values: &Vec<T>) -> (r: Vec<u8>)
    requires
        spec_parts_sized(spec_leaf_parts(values@), T::spec_packing()),
        T::spec_packing().spec_height_for_value_count(values@.len()) <= MAX_TREE_DEPTH,
    ensures
        r@ == spec_hasher_root(
            T::spec_packing().spec_height_for_value_count(values@.len()),
            spec_concat(spec_leaf_parts(values@)),
            spec_stream_of(spec_leaf_parts(values@), T::spec_packing() is Packed),
        ),
        r@.len() == 32,
{
    let packing = T::tree_hash_packing();
    let height = packing.height_for_value_count(values.len());
    let ghost parts = spec_leaf_parts(values@);
    let ghost pack = T::spec_packing() is Packed;
    let mut hasher = match packing {
        TreeHashPacking::Packed { .. } => VecTreeHasher::packed(height),
        TreeHashPacking::NotPacked => VecTreeHasher::not_packed(height),
    };
    proof {
        assert(parts.take(0) =~= Seq::<Seq<u8>>::empty());
        assert(hasher.spec_fed() =~= spec_concat(parts.take(0)));
        assert(hasher.spec_processed() =~= spec_stream_of(parts.take(0), pack));
    }
    let mut i: usize = 0;
    while i < values.len()
        invariant
            i <= values@.len(),
            parts == spec_leaf_parts(values@),
            parts.len() == values@.len(),
            hasher.wf(),
            hasher.spec_height() == packing.spec_height_for_value_count(values@.len()),
            packing == T::spec_packing(),
            hasher.spec_should_pack() == pack,
            pack == (T::spec_packing() is Packed),
            hasher.spec_fed() == spec_concat(parts.take(i as int)),
            hasher.spec_processed() == spec_stream_of(parts.take(i as int), pack),
        decreases values@.len() - i,
    {
        let bytes = values[i].tree_hash_apply_root();
        hasher.update(bytes.as_slice());
        proof {
            let t = parts.take(i + 1);
            assert(t.drop_last() =~= parts.take(i as int));
            assert(t.last() == parts[i as int]);
            assert(parts[i as int] == values@[i as int].spec_leaf_bytes());
            assert(hasher.spec_fed() =~= spec_concat(t));
            assert(hasher.spec_processed() =~= spec_stream_of(t, pack));
        }
        i = i + 1;
    }
    proof {
        assert(parts.take(values@.len() as int) =~= parts);
        lemma_stream_len(parts, packing);
        let n = parts.len() as int;
        let leaves = packing.spec_leaf_count(values@.len()) as int;
        let stream_len = hasher.spec_processed().len() as int;
        match packing {
            TreeHashPacking::Packed { packing_factor } => {
                let f = packing_factor as int;
                assert(stream_len <= 32 * leaves) by (nonlinear_arith)
                    requires
                        f >= 1,
                        n >= 0,
                        stream_len * f == 32 * n,
                        leaves == (n + f - 1) / f,
                ;
            },
            TreeHashPacking::NotPacked => {
                assert(stream_len <= 32 * leaves);
            },
        }
        crate::lemma_height_for_leaf_count(packing.spec_leaf_count(values@.len()));
        crate::hasher::lemma_block_capacity(
            hasher.spec_processed(),
            packing.spec_leaf_count(values@.len()),
            hasher.spec_height(),
        );
    }
    hasher.finish()
}

} // verus!

