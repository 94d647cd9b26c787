use rusty_merkle_tree::merkle_hash::{bytes_to_hex, hash_from_hex, same_hash};
use rusty_merkle_tree::merkle_tree::MerkleTree;
use sha3::{Digest, Sha3_256};

#[test]
fn hash_of_empty_data() {
    let hash = MerkleTree::get_hash_of(b"");
    assert_eq!(
        MerkleTree::bytes_to_hex(&hash),
        "a7ffc6f8bf1ed76651c14756a061d662f580ff4de43b49fa82d80a4b80f8434a"
    );
}

#[test]
fn hash_of_abc() {
    let hash = MerkleTree::get_hash_of(b"abc");
    assert_eq!(
        bytes_to_hex(&hash),
        "3a985da74fe225b2045c172d6bd390bd855f086e3e9d525b46bfe24511431532"
    );
}

#[test]
fn combine_hashes_the_concatenated_bytes() {
    let left = MerkleTree::get_hash_of(b"left");
    let right = MerkleTree::get_hash_of(b"right");
    let mut joined = left.to_vec();
    joined.extend_from_slice(&right);
    let expected: [u8; 32] = Sha3_256::digest(&joined).into();
    assert_eq!(MerkleTree::combine_hashes(&left, &right), expected);
    assert_ne!(MerkleTree::combine_hashes(&right, &left), expected);
}

#[test]
fn hex_text_of_bytes() {
    assert_eq!(bytes_to_hex(&[0x00, 0x0a, 0xff, 0x10]), "000aff10");
    assert_eq!(bytes_to_hex(&[]), "");
}

#[test]
fn hash_text_round_trip() {
    let hash = MerkleTree::get_hash_of(b"something");
    let text = bytes_to_hex(&hash);
    assert_eq!(hash_from_hex(&text), Some(hash));
    assert_eq!(hash_from_hex(&text.to_uppercase()), Some(hash));
}

#[test]
fn hash_text_rejected() {
    assert_eq!(hash_from_hex(""), None);
    assert_eq!(hash_from_hex("abc"), None);
    let mut text = "0".repeat(63);
    text.push('g');
    assert_eq!(hash_from_hex(&text), None);
    assert_eq!(hash_from_hex(&"0".repeat(64)), Some([0u8; 32]));
    assert_eq!(hash_from_hex(&"f".repeat(64)), Some([0xffu8; 32]));
}

#[test]
fn same_hash_compares_bytes() {
    let a = [7u8; 32];
    let mut b = a;
    assert!(same_hash(&a, &b));
    b[31] = 8;
    assert!(!same_hash(&a, &b));
}
