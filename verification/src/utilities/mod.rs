//! Hashing, SSZ, trie, mountain-range and signature helpers.

pub mod bls;
pub mod endian;
pub mod hash;
pub mod merkle_tree;
pub mod mmr;
pub mod mpt;
pub mod rlp_encoding;
pub mod ssz;
pub mod tree_hash;
