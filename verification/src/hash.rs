pub mod merkle_tree;
pub mod sha2_256;
