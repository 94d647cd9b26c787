use vstd::prelude::*;

verus! {

/// What can go wrong when building, querying or growing a tree.
#[derive(Debug)]
pub enum MerkleTreeError {
    /// There was nothing to build the tree from.
    FailedToBuild(String),
    /// The hash is not part of the tree (at the index asked for).
    InvalidHash(String),
    /// The hash is already part of the tree.
    HashAlreadyExists(String),
    /// The elements could not be read.
    FailedToProcessFile(String),
}

} // verus!
