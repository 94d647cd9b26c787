use crate::direction::Direction;
use crate::merkle_hash::MerkleHash;
use vstd::prelude::*;

verus! {

/// The path from a leaf to the root: for each level below the root, the
/// sibling hash and the side it goes on.
pub struct ProofOfInclusion {
    proof: Vec<(MerkleHash, Direction)>,
    leaf: MerkleHash,
}

impl ProofOfInclusion {
    /// The sibling entries, from the leaf level upwards.
    pub closed spec fn entries(&self) -> Seq<(MerkleHash, Direction)> {
        self.proof@
    }

    /// The leaf that the proof is for.
    pub closed spec fn leaf_hash(&self) -> MerkleHash {
        self.leaf
    }

    /// Creates a proof for `leaf` from its path to the root.
    pub fn new_from(leaf: MerkleHash, proof: Vec<(MerkleHash, Direction)>) -> (r: Self)
        ensures
            r.leaf_hash() == leaf,
            r.entries() == proof@,
    {
        ProofOfInclusion { leaf, proof }
    }

    /// The sibling entries, from the leaf level upwards.
    pub fn iter(&self) -> (r: &[(MerkleHash, Direction)])
        ensures
            r@ == self.entries(),
    {
        self.proof.as_slice()
    }

    /// The leaf that the proof is for.
    pub fn leaf(&self) -> (r: &MerkleHash)
        ensures
            *r == self.leaf_hash(),
    {
        &self.leaf
    }
}

} // verus!
