use rusty_merkle_tree::direction::Direction;
use rusty_merkle_tree::merkle_hash::MerkleHash;
use rusty_merkle_tree::merkle_tree::MerkleTree;
use rusty_merkle_tree::merkle_tree_error::MerkleTreeError;

fn strings(data: &[&str]) -> Vec<Vec<u8>> {
    data.iter().map(|d| d.as_bytes().to_vec()).collect()
}

fn numbered(n: usize) -> Vec<Vec<u8>> {
    (0..n).map(|i| format!("something0{}", i).into_bytes()).collect()
}

fn h(s: &str) -> MerkleHash {
    MerkleTree::get_hash_of(s.as_bytes())
}

fn fold(leaf: &MerkleHash, entries: &[(MerkleHash, Direction)]) -> MerkleHash {
    let mut acc = *leaf;
    for (hash, direction) in entries.iter() {
        acc = match direction {
            Direction::Left => MerkleTree::combine_hashes(hash, &acc),
            Direction::Right => MerkleTree::combine_hashes(&acc, hash),
        };
    }
    acc
}

#[test]
fn build_simple_tree() {
    let data = vec![[1u8; 32], [2u8; 32], [3u8; 32], [4u8; 32]];
    let tree = MerkleTree::new_from_hashables(data.iter().map(|d| d.to_vec()).collect()).unwrap();

    assert_eq!(tree.levels().len(), 3);
    assert_eq!(tree.levels()[0].len(), 4);
    assert_eq!(tree.levels()[1].len(), 2);
    assert_eq!(tree.levels()[2].len(), 1);
}

#[test]
fn build_simple_tree_from_strings() {
    let data = strings(&["something00", "something01", "something02", "something03"]);
    let tree = MerkleTree::new_from_hashables(data).unwrap();

    assert_eq!(tree.levels().len(), 3);
    assert_eq!(tree.levels()[0].len(), 4);
    assert_eq!(tree.levels()[1].len(), 2);
    assert_eq!(tree.levels()[2].len(), 1);
}

#[test]
fn verify_inclusion_in_simple_tree_from_strings() {
    let data = strings(&["something00", "something01", "something02", "something03", "something04"]);
    let tree = MerkleTree::new_from_hashables(data).unwrap();
    let hash = h("something04");

    assert!(tree.verify_with_index(&hash, 4));
}

#[test]
fn verify_inclusion_in_big_tree_from_strings() {
    let tree = MerkleTree::new_from_hashables(numbered(32)).unwrap();
    let hash = h("something017");

    assert!(tree.verify_with_index(&hash, 17));
}

#[test]
fn proof_of_inclusion_in_big_tree_from_strings() {
    let tree = MerkleTree::new_from_hashables(numbered(32)).unwrap();
    let hash = h("something017");

    let proof = tree.proof_of_inclusion(&hash).unwrap();
    assert_eq!(*proof.leaf(), hash);
    assert_eq!(proof.iter().len(), 5);
}

#[test]
#[should_panic]
fn proof_of_inclusion_fails() {
    let tree = MerkleTree::new_from_hashables(numbered(32)).unwrap();
    let hash = h("not in the tree");

    let _proof = tree.proof_of_inclusion(&hash).unwrap();
}

#[test]
fn add_to_tree() {
    let mut tree = MerkleTree::new_from_hashables(numbered(17)).unwrap();
    let new_data = h("something099");
    let _ = tree.add_hash(new_data);

    assert!(tree.verify(&new_data));
    let proof = tree.proof_of_inclusion(&new_data).unwrap();
    assert_eq!(fold(&new_data, proof.iter()), tree.root());
}

#[test]
fn four_leaves_proof_for_third() {
    let tree = MerkleTree::new_from_hashables(strings(&["a", "b", "c", "d"])).unwrap();
    let lens: Vec<usize> = tree.levels().iter().map(|l| l.len()).collect();
    assert_eq!(lens, vec![4, 2, 1]);

    let proof = tree.proof_of_inclusion_with_index(&h("c"), 2).unwrap();
    let entries = proof.iter();
    assert_eq!(entries.len(), 2);
    assert_eq!(entries[0], (h("d"), Direction::Right));
    assert_eq!(entries[1], (MerkleTree::combine_hashes(&h("a"), &h("b")), Direction::Left));
    assert_eq!(fold(&h("c"), entries), tree.root());
}

#[test]
fn odd_leaves_are_padded() {
    let tree = MerkleTree::new_from_hashables(strings(&["a", "b", "c"])).unwrap();
    assert_eq!(tree.levels()[0], vec![h("a"), h("b"), h("c"), h("c")]);
    assert!(tree.verify_with_index(&h("c"), 2));
    assert!(tree.verify_with_index(&h("c"), 3));
    let ab = MerkleTree::combine_hashes(&h("a"), &h("b"));
    let cc = MerkleTree::combine_hashes(&h("c"), &h("c"));
    assert_eq!(tree.root(), MerkleTree::combine_hashes(&ab, &cc));
}

#[test]
fn empty_leaves_fail_to_build() {
    assert!(matches!(MerkleTree::new_from_hashes(vec![]), Err(MerkleTreeError::FailedToBuild(_))));
    assert!(matches!(MerkleTree::new_from_hashables(vec![]), Err(MerkleTreeError::FailedToBuild(_))));
}

#[test]
fn missing_hash_is_not_found() {
    let tree = MerkleTree::new_from_hashables(strings(&["a", "b", "c"])).unwrap();
    let missing = h("never inserted");
    assert!(matches!(tree.proof_of_inclusion(&missing), Err(MerkleTreeError::InvalidHash(_))));
    assert!(!tree.verify(&missing));
}

#[test]
fn every_supplied_leaf_verifies() {
    for n in 1..12 {
        let data = numbered(n);
        let tree = MerkleTree::new_from_hashables(data.clone()).unwrap();
        for d in data.iter() {
            assert!(tree.verify(&MerkleTree::get_hash_of(d)));
        }
    }
}

#[test]
fn index_outside_leaves_is_false() {
    let tree = MerkleTree::new_from_hashables(strings(&["a", "b", "c"])).unwrap();
    assert!(!tree.verify_with_index(&h("a"), 4));
    assert!(!tree.verify_with_index(&h("a"), u32::MAX));
    assert!(!tree.verify_with_index(&h("a"), 1));
    assert!(matches!(
        tree.proof_of_inclusion_with_index(&h("a"), 7),
        Err(MerkleTreeError::InvalidHash(_))
    ));
}

#[test]
fn proofs_fold_to_root() {
    for n in 1..12 {
        let data = numbered(n);
        let tree = MerkleTree::new_from_hashables(data.clone()).unwrap();
        for d in data.iter() {
            let leaf = MerkleTree::get_hash_of(d);
            let proof = tree.proof_of_inclusion(&leaf).unwrap();
            assert_eq!(fold(&leaf, proof.iter()), tree.root());
        }
    }
}

#[test]
fn trailing_duplicate_keeps_root() {
    let leaves: Vec<MerkleHash> = ["a", "b", "c", "d", "e"].iter().map(|s| h(s)).collect();
    let mut padded = leaves.clone();
    padded.push(h("e"));
    let t1 = MerkleTree::new_from_hashes(leaves).unwrap();
    let t2 = MerkleTree::new_from_hashes(padded).unwrap();
    assert_eq!(t1.root(), t2.root());
    assert_eq!(t1.levels(), t2.levels());
}

#[test]
fn single_leaf_tree_is_its_root() {
    let tree = MerkleTree::new_from_hashes(vec![h("a")]).unwrap();
    assert_eq!(tree.levels().len(), 1);
    assert_eq!(tree.root(), h("a"));
    assert!(tree.verify_with_index(&h("a"), 0));
    assert_eq!(tree.proof_of_inclusion(&h("a")).unwrap().iter().len(), 0);
}

#[test]
fn adding_present_hash_fails_and_keeps_root() {
    let mut tree = MerkleTree::new_from_hashables(strings(&["a", "b", "c"])).unwrap();
    let root = tree.root();
    let levels = tree.levels().clone();
    assert!(matches!(tree.add_hash(h("b")), Err(MerkleTreeError::HashAlreadyExists(_))));
    assert_eq!(tree.root(), root);
    assert_eq!(*tree.levels(), levels);
    assert!(matches!(tree.add_data(b"c"), Err(MerkleTreeError::HashAlreadyExists(_))));
    assert_eq!(tree.root(), root);
}

#[test]
fn adding_reuses_padding_slot() {
    let mut tree = MerkleTree::new_from_hashables(strings(&["a", "b", "c"])).unwrap();
    tree.add_data(b"d").unwrap();
    assert_eq!(tree.levels()[0], vec![h("a"), h("b"), h("c"), h("d")]);
    let expected = MerkleTree::new_from_hashables(strings(&["a", "b", "c", "d"])).unwrap();
    assert_eq!(tree.root(), expected.root());

    tree.add_hash(h("e")).unwrap();
    assert_eq!(tree.levels()[0], vec![h("a"), h("b"), h("c"), h("d"), h("e"), h("e")]);
}

#[test]
fn adding_over_genuine_duplicate_tail() {
    let mut tree = MerkleTree::new_from_hashes(vec![h("a"), h("b"), h("b")]).unwrap();
    assert_eq!(tree.levels()[0], vec![h("a"), h("b"), h("b"), h("b")]);
    tree.add_hash(h("z")).unwrap();
    assert_eq!(tree.levels()[0], vec![h("a"), h("b"), h("b"), h("z")]);
    assert!(tree.verify(&h("b")));
}

#[test]
fn adding_distinct_hashes_keeps_every_leaf() {
    let mut tree = MerkleTree::new_from_hashables(numbered(5)).unwrap();
    let added: Vec<MerkleHash> = (0..7).map(|i| h(&format!("added{}", i))).collect();
    for a in added.iter() {
        assert!(tree.add_hash(*a).is_ok());
    }
    for d in numbered(5).iter() {
        assert!(tree.verify(&MerkleTree::get_hash_of(d)));
    }
    for a in added.iter() {
        assert!(tree.verify(a));
    }
    assert!(!tree.verify(&h("never added")));
    for a in added.iter() {
        let proof = tree.proof_of_inclusion(a).unwrap();
        assert_eq!(fold(a, proof.iter()), tree.root());
    }
}
