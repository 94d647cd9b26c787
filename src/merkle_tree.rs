use crate::direction::Direction;
use crate::merkle_hash::{
    bytes_to_hex, combine_spec, hex_of, same_hash, sha3_256, sha3_256_of, MerkleHash,
};
use crate::merkle_tree_error::MerkleTreeError;
use crate::proof_of_inclusion::ProofOfInclusion;
use crate::tree_model::{
    add_leaf, build_levels, first_index, fold_path, fold_step, lemma_build_levels_basics,
    lemma_first_index, lemma_pad, lemma_parent_level_len, lemma_path_reaches_root, lemma_top_level,
    pad, parent_level, path_of, root_of, sibling,
};
use vstd::prelude::*;

verus! {

/// A Merkle tree: levels of hashes from the leaves up to the single root.
#[derive(Debug)]
pub struct MerkleTree {
    levels: Vec<Vec<MerkleHash>>,
}

/// The hashes of each level of `levels`.
pub open spec fn levels_view(levels: Seq<Vec<MerkleHash>>) -> Seq<Seq<MerkleHash>> {
    levels.map_values(|l: Vec<MerkleHash>| l@)
}

impl View for MerkleTree {
    type V = Seq<Seq<MerkleHash>>;

    closed spec fn view(&self) -> Seq<Seq<MerkleHash>> {
        levels_view(self.levels@)
    }
}

/// The hash of each data item.
pub open spec fn hashed_leaves(data: Seq<Vec<u8>>) -> Seq<MerkleHash> {
    data.map_values(|d: Vec<u8>| sha3_256_of(d@))
}

impl MerkleTree {
    #[verifier::type_invariant]
    spec fn wf(self) -> bool {
        &&& self@.len() >= 1
        &&& self@[0].len() >= 1
        &&& self@ == build_levels(self@[0])
    }

    /// Builds every level over the non-empty `hashes`, leaves first.
    fn build_tree(hashes: Vec<MerkleHash>) -> (levels: Vec<Vec<MerkleHash>>)
        requires
            hashes@.len() >= 1,
        ensures
            levels_view(levels@) == build_levels(hashes@),
    {
        let mut levels: Vec<Vec<MerkleHash>> = Vec::new();
        let mut current = hashes;
        proof {
            assert(levels_view(levels@) + build_levels(current@) =~= build_levels(hashes@));
        }
        while current.len() > 1
            invariant
                current@.len() >= 1,
                levels_view(levels@) + build_levels(current@) == build_levels(hashes@),
            decreases current@.len(),
        {
            let ghost before = current@;
            proof {
                lemma_pad(before);
                lemma_parent_level_len(before);
            }
            if current.len() % 2 != 0 {
                let last = current[current.len() - 1];
                current.push(last);
            }
            assert(current@ =~= pad(before));
            let len = current.len();
            let pairs = len / 2;
            let mut next: Vec<MerkleHash> = Vec::with_capacity(pairs);
            let mut j: usize = 0;
            while j < pairs
                invariant
                    current@ == pad(before),
                    pairs * 2 == len,
                    len == current@.len(),
                    0 <= j <= pairs,
                    next@ =~= parent_level(current@).take(j as int),
                decreases pairs - j,
            {
                let h = MerkleTree::combine_hashes(&current[2 * j], &current[2 * j + 1]);
                next.push(h);
                j = j + 1;
            }
            assert(next@ =~= parent_level(pad(before)));
            let ghost old_levels = levels@;
            levels.push(current);
            proof {
                assert(levels_view(levels@) =~= levels_view(old_levels).push(pad(before)));
                assert(build_levels(before) == seq![pad(before)] + build_levels(next@));
                assert(levels_view(levels@) + build_levels(next@) =~= levels_view(old_levels)
                    + build_levels(before));
            }
            current = next;
        }
        let ghost old_levels = levels@;
        levels.push(current);
        proof {
            assert(levels_view(levels@) =~= levels_view(old_levels).push(current@));
            assert(build_levels(current@) == seq![current@]);
            assert(levels_view(levels@) =~= levels_view(old_levels) + build_levels(current@));
        }
        levels
    }

    /// The leaf level, padding included.
    pub open spec fn leaves(self) -> Seq<MerkleHash> {
        self@[0]
    }

    /// The hash at the top of the tree.
    pub open spec fn root_hash(self) -> MerkleHash {
        self@.last()[0]
    }

    /// Builds a tree over the given leaf hashes, kept in their order.
    pub fn new_from_hashes(hashes: Vec<MerkleHash>) -> (r: Result<MerkleTree, MerkleTreeError>)
        ensures
            r is Err <==> hashes@.len() == 0,
            r is Err ==> r->Err_0 is FailedToBuild,
            r is Ok ==> r->Ok_0@ == build_levels(hashes@),
    {
        if hashes.len() == 0 {
            return Err(MerkleTreeError::FailedToBuild("No hashes to build the tree from".to_string()));
        }
        let ghost leaves = hashes@;
        let levels = MerkleTree::build_tree(hashes);
        proof {
            lemma_build_levels_basics(leaves);
            lemma_pad(leaves);
        }
        Ok(MerkleTree { levels })
    }

    /// The root of the tree.
    pub fn root(&self) -> (r: MerkleHash)
        ensures
            r == self.root_hash(),
            r == root_of(self.leaves()),
    {
        proof {
            use_type_invariant(self);
        }
        let top = &self.levels[self.levels.len() - 1];
        proof {
            lemma_top_level(self@[0]);
            assert(top@ == self@.last());
        }
        top[0]
    }

    /// The levels of the tree, leaves first and root last.
    pub fn levels(&self) -> (r: &Vec<Vec<MerkleHash>>)
        ensures
            levels_view(r@) == self@,
    {
        &self.levels
    }

    /// The first position of `leaf` among the leaves, if it is there.
    fn position(&self, leaf: &MerkleHash) -> (r: Option<usize>)
        ensures
            r is None <==> !self.leaves().contains(*leaf),
            r is Some ==> r->0 == first_index(self.leaves(), *leaf) && r->0 < self.leaves().len(),
            r is Some ==> self.leaves()[r->0 as int] == *leaf,
    {
        proof {
            use_type_invariant(self);
        }
        let leaves = &self.levels[0];
        assert(leaves@ == self.leaves());
        let mut i: usize = 0;
        while i < leaves.len()
            invariant
                leaves@ == self.leaves(),
                0 <= i <= leaves@.len(),
                forall|j: int| 0 <= j < i ==> leaves@[j] != *leaf,
            decreases leaves@.len() - i,
        {
            if same_hash(&leaves[i], leaf) {
                proof {
                    lemma_first_index(leaves@, *leaf, i as int);
                }
                return Some(i);
            }
            i = i + 1;
        }
        None
    }

    /// The proof of inclusion of `leaf` at position `index` of the leaves.
    fn proof_at(&self, leaf: &MerkleHash, index: usize) -> (r: Result<ProofOfInclusion, MerkleTreeError>)
        ensures
            r is Ok <==> index < self.leaves().len() && self.leaves()[index as int] == *leaf,
            r is Err ==> r->Err_0 is InvalidHash,
            r is Ok ==> r->Ok_0.leaf_hash() == *leaf,
            r is Ok ==> r->Ok_0.entries() == path_of(self.leaves(), index as int),
    {
        proof {
            use_type_invariant(self);
        }
        if index >= self.levels[0].len() || !same_hash(&self.levels[0][index], leaf) {
            return Err(MerkleTreeError::InvalidHash("Hash is not part of the tree".to_string()));
        }
        let ghost leaves = self.leaves();
        let mut proof: Vec<(MerkleHash, Direction)> = Vec::new();
        let mut idx: usize = index;
        let mut k: usize = 0;
        let ghost mut current = leaves;
        proof {
            lemma_pad(leaves);
            assert(self@.subrange(0, self@.len() as int) =~= self@);
            assert(proof@ + path_of(current, idx as int) =~= path_of(leaves, index as int));
        }
        while k < self.levels.len()
            invariant
                self@ == build_levels(leaves),
                leaves == self.leaves(),
                pad(leaves) == leaves,
                0 <= k <= self@.len(),
                self@.subrange(k as int, self@.len() as int) == build_levels(current),
                current.len() >= 1,
                idx < pad(current).len(),
                proof@ + path_of(current, idx as int) == path_of(leaves, index as int),
                build_levels(current).len() >= 1,
            ensures
                current.len() == 1,
                proof@ + path_of(current, idx as int) == path_of(leaves, index as int),
            decreases self@.len() - k,
        {
            let level = &self.levels[k];
            proof {
                lemma_build_levels_basics(current);
                lemma_pad(current);
                assert(self@.subrange(k as int, self@.len() as int)[0] == self@[k as int]);
                assert(level@ == pad(current));
            }
            if level.len() == 1 {
                break;
            }
            let entry = if idx % 2 == 0 {
                if idx + 1 < level.len() {
                    (level[idx + 1], Direction::Right)
                } else {
                    (level[idx], Direction::Right)
                }
            } else {
                (level[idx - 1], Direction::Left)
            };
            assert(entry == sibling(pad(current), idx as int));
            let ghost before = proof@;
            proof.push(entry);
            proof {
                let next = parent_level(pad(current));
                lemma_parent_level_len(current);
                lemma_pad(next);
                assert(build_levels(current) == seq![pad(current)] + build_levels(next));
                assert(self@.subrange(k + 1, self@.len() as int) =~= build_levels(current).drop_first());
                assert(build_levels(current).drop_first() =~= build_levels(next));
                assert(path_of(current, idx as int) == seq![entry] + path_of(next, (idx / 2) as int));
                assert(proof@ + path_of(next, (idx / 2) as int) =~= before + path_of(current, idx as int));
                lemma_build_levels_basics(next);
                current = next;
            }
            idx = idx / 2;
            k = k + 1;
        }
        proof {
            lemma_build_levels_basics(current);
            assert(proof@ =~= path_of(leaves, index as int));
        }
        Ok(ProofOfInclusion::new_from(*leaf, proof))
    }

    /// Whether `leaf` is at position `index` of the leaves and its proof
    /// leads to the root.
    fn verify_at(&self, leaf: &MerkleHash, index: usize) -> (r: bool)
        ensures
            r == (index < self.leaves().len() && self.leaves()[index as int] == *leaf),
    {
        proof {
            use_type_invariant(self);
        }
        let proof = match self.proof_at(leaf, index) {
            Ok(proof) => proof,
            Err(_) => return false,
        };
        let entries = proof.iter();
        let mut computed_root: MerkleHash = *leaf;
        let mut k: usize = 0;
        proof {
            assert(entries@.skip(0) =~= entries@);
        }
        while k < entries.len()
            invariant
                0 <= k <= entries@.len(),
                fold_path(*leaf, entries@) == fold_path(computed_root, entries@.skip(k as int)),
            decreases entries@.len() - k,
        {
            let (hash, direction) = entries[k];
            let ghost acc = computed_root;
            computed_root = match direction {
                Direction::Left => MerkleTree::combine_hashes(&hash, &computed_root),
                Direction::Right => MerkleTree::combine_hashes(&computed_root, &hash),
            };
            proof {
                assert(computed_root == fold_step(acc, entries@[k as int]));
                assert(entries@.skip(k as int).drop_first() =~= entries@.skip(k + 1));
            }
            k = k + 1;
        }
        proof {
            lemma_build_levels_basics(self.leaves());
            lemma_path_reaches_root(self.leaves(), index as int);
        }
        let root = self.root();
        same_hash(&computed_root, &root)
    }

    /// Whether `leaf` is the leaf at position `index`, checked by folding its
    /// proof up to the root; `false` for an index outside the leaves.
    pub fn verify_with_index(&self, leaf: &MerkleHash, index: u32) -> (r: bool)
        ensures
            r == (index < self.leaves().len() && self.leaves()[index as int] == *leaf),
            index >= self.leaves().len() ==> !r,
    {
        self.verify_at(leaf, index as usize)
    }

    /// Whether `leaf` is one of the leaves, checked by folding its proof up to
    /// the root.
    pub fn verify(&self, leaf: &MerkleHash) -> (r: bool)
        ensures
            r == self.leaves().contains(*leaf),
    {
        match self.position(leaf) {
            Some(index) => self.verify_at(leaf, index),
            None => false,
        }
    }

    /// The proof of inclusion of `leaf` at position `index` of the leaves.
    pub fn proof_of_inclusion_with_index(&self, leaf: &MerkleHash, index: u32) -> (r: Result<
        ProofOfInclusion,
        MerkleTreeError,
    >)
        ensures
            r is Ok <==> index < self.leaves().len() && self.leaves()[index as int] == *leaf,
            r is Err ==> r->Err_0 is InvalidHash,
            r is Ok ==> r->Ok_0.leaf_hash() == *leaf,
            r is Ok ==> r->Ok_0.entries() == path_of(self.leaves(), index as int),
    {
        self.proof_at(leaf, index as usize)
    }

    /// The proof of inclusion of the first occurrence of `leaf` among the leaves.
    pub fn proof_of_inclusion(&self, leaf: &MerkleHash) -> (r: Result<ProofOfInclusion, MerkleTreeError>)
        ensures
            r is Ok <==> self.leaves().contains(*leaf),
            r is Err ==> r->Err_0 is InvalidHash,
            r is Ok ==> r->Ok_0.leaf_hash() == *leaf,
            r is Ok ==> r->Ok_0.entries() == path_of(
                self.leaves(),
                first_index(self.leaves(), *leaf),
            ),
    {
        match self.position(leaf) {
            Some(index) => self.proof_at(leaf, index),
            None => Err(MerkleTreeError::InvalidHash("Hash is not part of the tree".to_string())),
        }
    }

    /// Appends `hash` to the leaves and rebuilds the tree; fails, leaving the
    /// tree as it was, when `hash` is already a leaf.
    pub fn add_hash(&mut self, hash: MerkleHash) -> (r: Result<(), MerkleTreeError>)
        ensures
            r is Err <==> old(self).leaves().contains(hash),
            r is Err ==> r->Err_0 is HashAlreadyExists,
            r is Err ==> final(self)@ == old(self)@,
            r is Ok ==> final(self)@ == build_levels(add_leaf(old(self).leaves(), hash)),
            r is Ok ==> final(self).leaves() == pad(add_leaf(old(self).leaves(), hash)),
    {
        proof {
            use_type_invariant(&*self);
        }
        if self.verify(&hash) {
            return Err(
                MerkleTreeError::HashAlreadyExists("Hash is already contained in the tree".to_string()),
            );
        }
        let current = &self.levels[0];
        let len = current.len();
        let mut leaves: Vec<MerkleHash> = Vec::new();
        let mut i: usize = 0;
        while i < len
            invariant
                len == current@.len(),
                0 <= i <= len,
                leaves@ =~= current@.take(i as int),
            decreases len - i,
        {
            leaves.push(current[i]);
            i = i + 1;
        }
        assert(current@.take(len as int) =~= current@);
        if len >= 2 && same_hash(&leaves[len - 1], &leaves[len - 2]) {
            leaves.set(len - 1, hash);
        } else {
            leaves.push(hash);
        }
        let ghost new_leaves = leaves@;
        assert(new_leaves == add_leaf(old(self).leaves(), hash));
        let levels = MerkleTree::build_tree(leaves);
        proof {
            lemma_build_levels_basics(new_leaves);
            lemma_pad(new_leaves);
        }
        self.levels = levels;
        Ok(())
    }

    /// Builds a tree over the hashes of the given data items, kept in their order.
    pub fn new_from_hashables(data: Vec<Vec<u8>>) -> (r: Result<MerkleTree, MerkleTreeError>)
        ensures
            r is Err <==> data@.len() == 0,
            r is Err ==> r->Err_0 is FailedToBuild,
            r is Ok ==> r->Ok_0@ == build_levels(hashed_leaves(data@)),
    {
        let mut hashes: Vec<MerkleHash> = Vec::new();
        let mut i: usize = 0;
        while i < data.len()
            invariant
                0 <= i <= data@.len(),
                hashes@ =~= hashed_leaves(data@).take(i as int),
            decreases data@.len() - i,
        {
            hashes.push(MerkleTree::get_hash_of(data[i].as_slice()));
            i = i + 1;
        }
        assert(hashes@ =~= hashed_leaves(data@));
        MerkleTree::new_from_hashes(hashes)
    }

    /// Hashes `data` and appends the hash as with `add_hash`.
    pub fn add_data(&mut self, data: &[u8]) -> (r: Result<(), MerkleTreeError>)
        ensures
            r is Err <==> old(self).leaves().contains(sha3_256_of(data@)),
            r is Err ==> r->Err_0 is HashAlreadyExists,
            r is Err ==> final(self)@ == old(self)@,
            r is Ok ==> final(self)@ == build_levels(add_leaf(old(self).leaves(), sha3_256_of(data@))),
    {
        let hash = MerkleTree::get_hash_of(data);
        self.add_hash(hash)
    }

    /// The hash of arbitrary data.
    pub fn get_hash_of(data: &[u8]) -> (r: MerkleHash)
        ensures
            r == sha3_256_of(data@),
    {
        sha3_256(data)
    }

    /// The hash of an inner node over its two children.
    pub fn combine_hashes(left: &MerkleHash, right: &MerkleHash) -> (r: MerkleHash)
        ensures
            r == combine_spec(*left, *right),
    {
        let mut bytes: Vec<u8> = Vec::with_capacity(64);
        let mut i: usize = 0;
        while i < 32
            invariant
                0 <= i <= 32,
                bytes@ == left@.take(i as int),
            decreases 32 - i,
        {
            bytes.push(left[i]);
            proof {
                assert(bytes@ =~= left@.take(i + 1));
            }
            i = i + 1;
        }
        let mut k: usize = 0;
        while k < 32
            invariant
                0 <= k <= 32,
                bytes@ == left@ + right@.take(k as int),
            decreases 32 - k,
        {
            bytes.push(right[k]);
            proof {
                assert(bytes@ =~= left@ + right@.take(k + 1));
            }
            k = k + 1;
        }
        proof {
            assert(left@.take(32) =~= left@);
            assert(right@.take(32) =~= right@);
        }
        sha3_256(bytes.as_slice())
    }

    /// The canonical text of a hash or any byte sequence: two lowercase
    /// hexadecimal digits per byte.
    pub fn bytes_to_hex(bytes: &[u8]) -> (r: String)
        ensures
            r@ == hex_of(bytes@),
    {
        bytes_to_hex(bytes)
    }
}

} // verus!
