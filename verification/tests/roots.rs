use tree_hash::hashing::hash;
use tree_hash::mix_in_length;
use tree_hash::TreeHash;
use tree_hash::BYTES_PER_CHUNK;

/// Returns `int` as little-endian bytes with a length of 32.
fn int_to_bytes32(int: u64) -> Vec<u8> {
    let mut vec = int.to_le_bytes().to_vec();
    vec.resize(32, 0);
    vec
}

#[test]
fn bool() {
    let mut true_bytes: Vec<u8> = vec![1];
    true_bytes.append(&mut vec![0; 31]);

    let false_bytes: Vec<u8> = vec![0; 32];

    assert_eq!(true.tree_hash_root(), true_bytes);
    assert_eq!(false.tree_hash_root(), false_bytes);
}

#[test]
fn int_to_bytes() {
    assert_eq!(&int_to_bytes32(0), &[0; 32]);
    assert_eq!(
        &int_to_bytes32(1),
        &[
            1, 0, 0, 0, 0, 0, 0, 0, 0, 0, 0, 0, 0, 0, 0, 0, 0, 0, 0, 0, 0, 0, 0, 0, 0, 0, 0, 0,
            0, 0, 0, 0
        ]
    );
    assert_eq!(
        &int_to_bytes32(u64::max_value()),
        &[
            255, 255, 255, 255, 255, 255, 255, 255, 0, 0, 0, 0, 0, 0, 0, 0, 0, 0, 0, 0, 0, 0, 0,
            0, 0, 0, 0, 0, 0, 0, 0, 0
        ]
    );
}

#[test]
fn mix_length() {
    let hash = {
        let mut preimage = vec![42; BYTES_PER_CHUNK];
        preimage.append(&mut vec![42]);
        preimage.append(&mut vec![0; BYTES_PER_CHUNK - 1]);
        hash(&preimage)
    };

    assert_eq!(mix_in_length(&[42; BYTES_PER_CHUNK], 42), hash);
}

#[test]
fn mix_length_zero() {
    let root = [7u8; 32];
    let mut preimage = root.to_vec();
    preimage.extend_from_slice(&[0u8; 32]);
    assert_eq!(mix_in_length(&root, 0), hash(&preimage));
}

#[test]
fn uint_roots_round_trip() {
    let a: u8 = 0xab;
    let r = a.tree_hash_root();
    assert_eq!(r[0], 0xab);
    assert!(r[1..].iter().all(|&b| b == 0));

    let b: u16 = 0x0102;
    let r = b.tree_hash_root();
    assert_eq!(&r[0..2], &[0x02, 0x01]);
    assert!(r[2..].iter().all(|&b| b == 0));

    let c: u32 = 0xdead_beef;
    let r = c.tree_hash_root();
    assert_eq!(&r[0..4], &[0xef, 0xbe, 0xad, 0xde]);
    assert!(r[4..].iter().all(|&b| b == 0));

    let d: u64 = 0x0102_0304_0506_0708;
    let r = d.tree_hash_root();
    assert_eq!(&r[0..8], &[8, 7, 6, 5, 4, 3, 2, 1]);
    assert_eq!(u64::from_le_bytes(r[0..8].try_into().unwrap()), d);
    assert!(r[8..].iter().all(|&b| b == 0));

    let e: usize = 300;
    let r = e.tree_hash_root();
    assert_eq!(&r[0..2], &[44, 1]);
    assert!(r[2..].iter().all(|&b| b == 0));
}

#[test]
fn bool_root_matches_u8() {
    assert_eq!(true.tree_hash_root(), 1u8.tree_hash_root());
    assert_eq!(false.tree_hash_root(), vec![0u8; 32]);
}

#[test]
fn byte_array_roots() {
    let small: [u8; 4] = [1, 2, 3, 4];
    let mut expected = vec![1u8, 2, 3, 4];
    expected.resize(32, 0);
    assert_eq!(small.tree_hash_root(), expected);

    let full: [u8; 32] = [9u8; 32];
    assert_eq!(full.tree_hash_root(), vec![9u8; 32]);
    assert_eq!(full.tree_hash_apply_root(), vec![9u8; 32]);
}

#[test]
fn sha256_known_answer() {
    // SHA-256 of the empty string, as every conformant implementation
    // computes it.
    let expected = [
        0xe3, 0xb0, 0xc4, 0x42, 0x98, 0xfc, 0x1c, 0x14, 0x9a, 0xfb, 0xf4, 0xc8, 0x99, 0x6f,
        0xb9, 0x24, 0x27, 0xae, 0x41, 0xe4, 0x64, 0x9b, 0x93, 0x4c, 0xa4, 0x95, 0x99, 0x1b,
        0x78, 0x52, 0xb8, 0x55,
    ];
    assert_eq!(hash(&[]), expected.to_vec());
    assert_eq!(hex::encode(hash(&[])), "e3b0c44298fc1c149afbf4c8996fb92427ae41e4649b934ca495991b7852b855");
}
