//! `TreeHash` for the primitive leaf types: fixed-width unsigned integers
//! in little-endian form, booleans as 8-bit integers, and fixed-size byte
//! arrays — each a single zero-padded chunk, never hashed on its own.

use crate::bytes::{le_bytes_of_u64, pad_to_chunk, spec_le_bytes, spec_pad_chunk};
use crate::{TreeHash, TreeHashPacking};
use vstd::prelude::*;

verus! {

/// For each unsigned integer type: the first `byte_width` bytes of its
/// root, decoded little-endian, give the value back, and every remaining
/// byte of the chunk is zero.
pub proof fn lemma_uint_root_round_trip(v8: u8, v16: u16, v32: u32, v64: u64, vus: usize)
    ensures
        crate::bytes::spec_from_le_bytes(v8.spec_root().take(1)) == v8,
        forall|i: int| 1 <= i < 32 ==> v8.spec_root()[i] == 0u8,
        crate::bytes::spec_from_le_bytes(v16.spec_root().take(2)) == v16,
        forall|i: int| 2 <= i < 32 ==> v16.spec_root()[i] == 0u8,
        crate::bytes::spec_from_le_bytes(v32.spec_root().take(4)) == v32,
        forall|i: int| 4 <= i < 32 ==> v32.spec_root()[i] == 0u8,
        crate::bytes::spec_from_le_bytes(v64.spec_root().take(8)) == v64,
        forall|i: int| 8 <= i < 32 ==> v64.spec_root()[i] == 0u8,
        crate::bytes::spec_from_le_bytes(vus.spec_root().take(8)) == vus,
        forall|i: int| 8 <= i < 32 ==> vus.spec_root()[i] == 0u8,
{
    crate::bytes::lemma_pow256_values();
    crate::bytes::lemma_root_round_trip(v8 as nat, 1);
    crate::bytes::lemma_root_round_trip(v16 as nat, 2);
    crate::bytes::lemma_root_round_trip(v32 as nat, 4);
    crate::bytes::lemma_root_round_trip(v64 as nat, 8);
    crate::bytes::lemma_root_round_trip(vus as nat, 8);
}

/// The root of `true` is the root of the 8-bit integer 1, and the root of
/// `false` is the all-zero chunk.
pub proof fn lemma_bool_roots()
    ensures
        true.spec_root() == 1u8.spec_root(),
        false.spec_root() == crate::zero_cache::zero_chunk(),
{
    assert(false.spec_root() =~= crate::zero_cache::zero_chunk()) by {
        assert(crate::bytes::pow256(0) == 1);
        assert forall|i: int| 0 <= i < 32 implies false.spec_root()[i] == 0u8 by {
            if i == 0 {
                assert((0nat / crate::bytes::pow256(0)) % 256 == 0);
            }
        }
    }
}

impl TreeHash for u8 {
    open spec fn spec_leaf_bytes(&self) -> Seq<u8> {
        spec_le_bytes(*self as nat, 1)
    }

    open spec fn spec_root(&self) -> Seq<u8> {
        spec_pad_chunk(spec_le_bytes(*self as nat, 1))
    }

    open spec fn spec_packing() -> TreeHashPacking {
        TreeHashPacking::Packed { packing_factor: 32 }
    }

    fn tree_hash_apply_root(&self) -> (bytes: Vec<u8>) {
        le_bytes_of_u64(*self as u64, 1)
    }

    fn tree_hash_packing() -> (p: TreeHashPacking) {
        TreeHashPacking::Packed { packing_factor: 32 }
    }

    fn tree_hash_root(&self) -> (r: Vec<u8>) {
        let mut bytes = le_bytes_of_u64(*self as u64, 1);
        pad_to_chunk(&mut bytes);
        bytes
    }
}

impl TreeHash for u16 {
    open spec fn spec_leaf_bytes(&self) -> Seq<u8> {
        spec_le_bytes(*self as nat, 2)
    }

    open spec fn spec_root(&self) -> Seq<u8> {
        spec_pad_chunk(spec_le_bytes(*self as nat, 2))
    }

    open spec fn spec_packing() -> TreeHashPacking {
        TreeHashPacking::Packed { packing_factor: 16 }
    }

    fn tree_hash_apply_root(&self) -> (bytes: Vec<u8>) {
        le_bytes_of_u64(*self as u64, 2)
    }

    fn tree_hash_packing() -> (p: TreeHashPacking) {
        TreeHashPacking::Packed { packing_factor: 16 }
    }

    fn tree_hash_root(&self) -> (r: Vec<u8>) {
        let mut bytes = le_bytes_of_u64(*self as u64, 2);
        pad_to_chunk(&mut bytes);
        bytes
    }
}

impl TreeHash for u32 {
    open spec fn spec_leaf_bytes(&self) -> Seq<u8> {
        spec_le_bytes(*self as nat, 4)
    }

    open spec fn spec_root(&self) -> Seq<u8> {
        spec_pad_chunk(spec_le_bytes(*self as nat, 4))
    }

    open spec fn spec_packing() -> TreeHashPacking {
        TreeHashPacking::Packed { packing_factor: 8 }
    }

    fn tree_hash_apply_root(&self) -> (bytes: Vec<u8>) {
        le_bytes_of_u64(*self as u64, 4)
    }

    fn tree_hash_packing() -> (p: TreeHashPacking) {
        TreeHashPacking::Packed { packing_factor: 8 }
    }

    fn tree_hash_root(&self) -> (r: Vec<u8>) {
        let mut bytes = le_bytes_of_u64(*self as u64, 4);
        pad_to_chunk(&mut bytes);
        bytes
    }
}

impl TreeHash for u64 {
    open spec fn spec_leaf_bytes(&self) -> Seq<u8> {
        spec_le_bytes(*self as nat, 8)
    }

    open spec fn spec_root(&self) -> Seq<u8> {
        spec_pad_chunk(spec_le_bytes(*self as nat, 8))
    }

    open spec fn spec_packing() -> TreeHashPacking {
        TreeHashPacking::Packed { packing_factor: 4 }
    }

    fn tree_hash_apply_root(&self) -> (bytes: Vec<u8>) {
        le_bytes_of_u64(*self, 8)
    }

    fn tree_hash_packing() -> (p: TreeHashPacking) {
        TreeHashPacking::Packed { packing_factor: 4 }
    }

    fn tree_hash_root(&self) -> (r: Vec<u8>) {
        let mut bytes = le_bytes_of_u64(*self, 8);
        pad_to_chunk(&mut bytes);
        bytes
    }
}

impl TreeHash for usize {
    open spec fn spec_leaf_bytes(&self) -> Seq<u8> {
        spec_le_bytes(*self as nat, 8)
    }

    open spec fn spec_root(&self) -> Seq<u8> {
        spec_pad_chunk(spec_le_bytes(*self as nat, 8))
    }

    open spec fn spec_packing() -> TreeHashPacking {
        TreeHashPacking::Packed { packing_factor: 4 }
    }

    fn tree_hash_apply_root(&self) -> (bytes: Vec<u8>) {
        le_bytes_of_u64(*self as u64, 8)
    }

    fn tree_hash_packing() -> (p: TreeHashPacking) {
        TreeHashPacking::Packed { packing_factor: 4 }
    }

    fn tree_hash_root(&self) -> (r: Vec<u8>) {
        let mut bytes = le_bytes_of_u64(*self as u64, 8);
        pad_to_chunk(&mut bytes);
        bytes
    }
}

impl TreeHash for bool {
    open spec fn spec_leaf_bytes(&self) -> Seq<u8> {
        spec_le_bytes(
            if *self {
                1nat
            } else {
                0nat
            },
            1,
        )
    }

    open spec fn spec_root(&self) -> Seq<u8> {
        spec_pad_chunk(
            spec_le_bytes(
                if *self {
                    1nat
                } else {
                    0nat
                },
                1,
            ),
        )
    }

    open spec fn spec_packing() -> TreeHashPacking {
        TreeHashPacking::Packed { packing_factor: 32 }
    }

    fn tree_hash_apply_root(&self) -> (bytes: Vec<u8>) {
        let byte: u8 = if *self {
            1
        } else {
            0
        };
        byte.tree_hash_apply_root()
    }

    fn tree_hash_packing() -> (p: TreeHashPacking) {
        u8::tree_hash_packing()
    }

    fn tree_hash_root(&self) -> (r: Vec<u8>) {
        let byte: u8 = if *self {
            1
        } else {
            0
        };
        byte.tree_hash_root()
    }
}

impl TreeHash for [u8; 4] {
    open spec fn spec_leaf_bytes(&self) -> Seq<u8> {
        self@
    }

    open spec fn spec_root(&self) -> Seq<u8> {
        spec_pad_chunk(self@)
    }

    open spec fn spec_packing() -> TreeHashPacking {
        TreeHashPacking::NotPacked
    }

    fn tree_hash_apply_root(&self) -> (bytes: Vec<u8>) {
        let mut bytes: Vec<u8> = Vec::new();
        bytes.extend_from_slice(self.as_slice());
        assert(bytes@ =~= self@);
        bytes
    }

    fn tree_hash_packing() -> (p: TreeHashPacking) {
        TreeHashPacking::NotPacked
    }

    fn tree_hash_root(&self) -> (r: Vec<u8>) {
        let mut bytes: Vec<u8> = Vec::new();
        bytes.extend_from_slice(self.as_slice());
        assert(bytes@ =~= self@);
        pad_to_chunk(&mut bytes);
        bytes
    }
}

impl TreeHash for [u8; 32] {
    open spec fn spec_leaf_bytes(&self) -> Seq<u8> {
        self@
    }

    open spec fn spec_root(&self) -> Seq<u8> {
        spec_pad_chunk(self@)
    }

    open spec fn spec_packing() -> TreeHashPacking {
        TreeHashPacking::NotPacked
    }

    fn tree_hash_apply_root(&self) -> (bytes: Vec<u8>) {
        let mut bytes: Vec<u8> = Vec::new();
        bytes.extend_from_slice(self.as_slice());
        assert(bytes@ =~= self@);
        bytes
    }

    fn tree_hash_packing() -> (p: TreeHashPacking) {
        TreeHashPacking::NotPacked
    }

    fn tree_hash_root(&self) -> (r: Vec<u8>) {
        let mut bytes: Vec<u8> = Vec::new();
        bytes.extend_from_slice(self.as_slice());
        assert(bytes@ =~= self@);
        pad_to_chunk(&mut bytes);
        bytes
    }
}

} // verus!
