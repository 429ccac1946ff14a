use mllib::merkle::{hash_elem, merkle_bench_input, merkle_root, verify_merkle_path};
use sha3::{Digest, Keccak256};

fn keccak(data: &[u8]) -> Vec<u8> {
    Keccak256::digest(data).to_vec()
}

#[test]
fn concat_appends() {
    assert_eq!(mllib::merkle::concat(&[1, 2], &[3]), vec![1, 2, 3]);
    assert_eq!(mllib::merkle::concat(&[], &[]), Vec::<u8>::new());
}

#[test]
fn hash_elem_is_keccak_of_one_byte() {
    let h = hash_elem(12);
    assert_eq!(h.len(), 32);
    assert_ne!(h, vec![12]);
    assert_eq!(h, keccak(&[12]));
}

#[test]
fn keccak_known_vector() {
    // Keccak-256 of the empty input.
    let root = merkle_root(&[], &vec![vec![]]);
    let expected: Vec<u8> = vec![
        0xc5, 0xd2, 0x46, 0x01, 0x86, 0xf7, 0x23, 0x3c, 0x92, 0x7e, 0x7d, 0xb2, 0xdc, 0xc7, 0x03,
        0xc0, 0xe5, 0x00, 0xb6, 0x53, 0xca, 0x82, 0x27, 0x3b, 0x7b, 0xfa, 0xd8, 0x04, 0x5d, 0x85,
        0xa4, 0x70,
    ];
    assert_eq!(root, expected);
}

#[test]
fn merkle_root_folds_the_path() {
    let leaf = vec![1u8, 2];
    let path = vec![vec![3u8], vec![4u8, 5]];
    let first = keccak(&[1, 2, 3]);
    let mut second_input = first.clone();
    second_input.extend_from_slice(&[4, 5]);
    assert_eq!(merkle_root(&leaf, &path), keccak(&second_input));
}

#[test]
fn bench_input_verifies() {
    let (leaf, path, root) = merkle_bench_input();
    assert_eq!(leaf, hash_elem(12));
    assert_eq!(path.len(), 10);
    assert_eq!(path[9], hash_elem(10));
    assert_eq!(verify_merkle_path(&leaf, &path, &root), 1);
}

#[test]
fn tampered_root_is_rejected() {
    let (leaf, path, mut root) = merkle_bench_input();
    root[0] ^= 1;
    assert_eq!(verify_merkle_path(&leaf, &path, &root), 0);
    let short = root[..31].to_vec();
    assert_eq!(verify_merkle_path(&leaf, &path, &short), 0);
}
