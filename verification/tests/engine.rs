use tree_hash::chunk_store::ChunkStore;
use tree_hash::collection::vec_tree_hash_root;
use tree_hash::hashing::hash_concat;
use tree_hash::height_for_leaf_count;
use tree_hash::merkle_root;
use tree_hash::reducer::merkleize_chunks;
use tree_hash::zero_cache::ZeroHashCache;
use tree_hash::hasher::VecTreeHasher;
use tree_hash::TreeHash;
use tree_hash::TreeHashPacking;

/// The naive reference root of a power-of-two list of 32-byte chunks:
/// split in half, recurse, hash the pair.
fn naive_root(leaves: &[Vec<u8>]) -> Vec<u8> {
    assert!(leaves.len().is_power_of_two());
    if leaves.len() == 1 {
        leaves[0].clone()
    } else {
        let half = leaves.len() / 2;
        hash_concat(&naive_root(&leaves[..half]), &naive_root(&leaves[half..]))
    }
}

/// The reference root of any number of leaf chunks: pad with zero chunks
/// to the next power of two, then reduce naively.
fn padded_naive_root(leaves: &[Vec<u8>]) -> Vec<u8> {
    let mut padded = leaves.to_vec();
    let target = leaves.len().max(1).next_power_of_two();
    while padded.len() < target {
        padded.push(vec![0u8; 32]);
    }
    naive_root(&padded)
}

fn leaf(i: usize) -> Vec<u8> {
    (0..32).map(|j| (i * 37 + j * 11) as u8).collect()
}

fn root_of_leaves(leaves: &[Vec<u8>]) -> Vec<u8> {
    let mut bytes = Vec::new();
    for l in leaves {
        bytes.extend_from_slice(l);
    }
    merkle_root(&bytes, 0)
}

#[test]
fn reduce_empty_is_zero_chunk() {
    for height in 1..10 {
        let store = ChunkStore::with_capacity(0);
        assert_eq!(merkleize_chunks(store, height), vec![0u8; 32]);
    }
}

#[test]
fn reduce_single_chunk_height_one_unchanged() {
    let mut store = ChunkStore::with_capacity(1);
    store.push(leaf(5));
    assert_eq!(merkleize_chunks(store, 1), leaf(5));
}

#[test]
fn reduce_pairs_against_hash() {
    // Two stored chunks at height 3 hash into one parent.
    let mut store = ChunkStore::with_capacity(2);
    store.push(leaf(0));
    store.push(leaf(1));
    assert_eq!(merkleize_chunks(store, 3), hash_concat(&leaf(0), &leaf(1)));

    // A lone left chunk is paired with the height-1 zero hash.
    let cache = ZeroHashCache::new();
    let mut store = ChunkStore::with_capacity(1);
    store.push(leaf(2));
    assert_eq!(merkleize_chunks(store, 3), hash_concat(&leaf(2), cache.get(1)));
}

#[test]
fn power_of_two_leaf_counts_match_naive() {
    for &n in &[1usize, 2, 4, 8] {
        let leaves: Vec<Vec<u8>> = (0..n).map(leaf).collect();
        assert_eq!(root_of_leaves(&leaves), padded_naive_root(&leaves), "n = {}", n);
    }
}

#[test]
fn other_leaf_counts_match_padded_naive() {
    for &n in &[0usize, 3, 5, 6, 7, 9] {
        let leaves: Vec<Vec<u8>> = (0..n).map(leaf).collect();
        assert_eq!(root_of_leaves(&leaves), padded_naive_root(&leaves), "n = {}", n);
    }
}

#[test]
fn minimum_chunk_count_pads_with_zero_leaves() {
    let leaves = vec![leaf(0), leaf(1), leaf(2)];
    let mut bytes = Vec::new();
    for l in &leaves {
        bytes.extend_from_slice(l);
    }
    let mut padded = leaves.clone();
    while padded.len() < 6 {
        padded.push(vec![0u8; 32]);
    }
    assert_eq!(merkle_root(&bytes, 6), padded_naive_root(&padded));
}

#[test]
fn zero_hash_cache_recurrence() {
    let cache = ZeroHashCache::new();
    assert_eq!(cache.get(0), &vec![0u8; 32]);
    for i in 0..48 {
        assert_eq!(cache.get(i + 1), &hash_concat(cache.get(i), cache.get(i)));
    }
}

#[test]
fn streaming_splits_agree() {
    let bytes: Vec<u8> = (0..200u16).map(|i| (i % 251) as u8).collect();
    let height = height_for_leaf_count((bytes.len() + 31) / 32);

    let whole = {
        let mut h = VecTreeHasher::packed(height);
        h.update(&bytes);
        h.finish()
    };

    for &split in &[1usize, 7, 31, 32, 33, 64, 100, 199] {
        let mut h = VecTreeHasher::packed(height);
        h.update(&bytes[..split]);
        h.update(&bytes[split..]);
        assert_eq!(h.finish(), whole, "split = {}", split);
    }

    let mut h = VecTreeHasher::packed(height);
    for b in &bytes {
        h.update(&[*b]);
    }
    assert_eq!(h.finish(), whole);
}

#[test]
fn height_for_leaf_counts() {
    assert_eq!(height_for_leaf_count(0), 1);
    assert_eq!(height_for_leaf_count(1), 1);
    assert_eq!(height_for_leaf_count(2), 2);
    assert_eq!(height_for_leaf_count(8), 4);
    assert_eq!(height_for_leaf_count(9), 5);
}

#[test]
fn height_for_value_counts() {
    let packed = TreeHashPacking::Packed { packing_factor: 4 };
    assert_eq!(packed.height_for_value_count(4), 1);
    assert_eq!(packed.height_for_value_count(5), 2);
    assert_eq!(packed.height_for_value_count(32), 4);
    let not_packed = TreeHashPacking::NotPacked;
    assert_eq!(not_packed.height_for_value_count(8), 4);
}

#[test]
fn packed_u64_values_fill_one_chunk() {
    // Four packed 64-bit values exactly fill one chunk; at height 1 the
    // chunk itself is the root, with no hashing at all.
    let values: Vec<u64> = vec![1, 2, 3, 4];
    let mut hasher = VecTreeHasher::packed(1);
    for v in &values {
        hasher.update(&v.tree_hash_apply_root());
    }
    let expected = vec![
        1, 0, 0, 0, 0, 0, 0, 0, 2, 0, 0, 0, 0, 0, 0, 0, 3, 0, 0, 0, 0, 0, 0, 0, 4, 0, 0, 0, 0,
        0, 0, 0,
    ];
    assert_eq!(hasher.finish(), expected);
    assert_eq!(vec_tree_hash_root(&values), expected);
}

#[test]
fn not_packed_values_get_their_own_chunks() {
    // Two 32-byte values, not packed: the root hashes the pair.
    let a: [u8; 32] = [3u8; 32];
    let b: [u8; 32] = [4u8; 32];
    let values = vec![a, b];
    let expected = hash_concat(&a, &b);
    assert_eq!(vec_tree_hash_root(&values), expected);

    // A short unpacked value is zero-padded to its own chunk.
    let small: Vec<[u8; 4]> = vec![[1, 2, 3, 4], [5, 6, 7, 8]];
    let mut c0 = vec![1u8, 2, 3, 4];
    c0.resize(32, 0);
    let mut c1 = vec![5u8, 6, 7, 8];
    c1.resize(32, 0);
    assert_eq!(vec_tree_hash_root(&small), hash_concat(&c0, &c1));
}

#[test]
fn empty_collection_root() {
    let values: Vec<u64> = Vec::new();
    // No bytes at height 1: one zero-padded chunk, unhashed.
    assert_eq!(vec_tree_hash_root(&values), vec![0u8; 32]);
}

#[test]
fn chunk_store_operations() {
    let mut store = ChunkStore::with_capacity(0);
    assert_eq!(store.len(), 0);
    store.push(leaf(0));
    store.push(leaf(1));
    store.push(leaf(2));
    assert_eq!(store.len(), 3);
    assert_eq!(store.get_slice(1), leaf(1).as_slice());
    store.set(1, leaf(9));
    assert_eq!(store.get_slice(1), leaf(9).as_slice());
    store.truncate(2);
    assert_eq!(store.len(), 2);
    let mut expected = leaf(0);
    expected.extend_from_slice(&leaf(9));
    assert_eq!(store.into_vec(), expected);
}

#[test]
fn hash_concat_matches_hash_of_concatenation() {
    let a = leaf(1);
    let b = leaf(2);
    let mut joined = a.clone();
    joined.extend_from_slice(&b);
    assert_eq!(hash_concat(&a, &b), tree_hash::hashing::hash(&joined));
}

#[test]
fn zero_leaves_root_is_cached_zero_hash() {
    let cache = ZeroHashCache::new();
    // Two all-zero leaves: the height-1 zero-subtree root.
    assert_eq!(&merkle_root(&[0u8; 64], 0), cache.get(1));
    // No bytes at all, padded to four leaves: the height-2 zero-subtree root.
    assert_eq!(&merkle_root(&[], 4), cache.get(2));
}

#[test]
fn merkle_root_matches_manual_streaming() {
    let bytes: Vec<u8> = (0..150u8).collect();
    let height = height_for_leaf_count((bytes.len() + 31) / 32);
    let mut hasher = VecTreeHasher::packed(height);
    hasher.update(&bytes);
    assert_eq!(merkle_root(&bytes, 0), hasher.finish());
}
