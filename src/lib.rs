pub mod direction;
pub mod merkle_hash;
pub mod merkle_tree_error;
pub mod proof_of_inclusion;
pub mod tree_model;
pub mod merkle_tree;
pub mod cli;
