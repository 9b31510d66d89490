//! A sparse Merkle tree of words.
//!
//! Keys and digests are 256-bit values, hashed with personalised BLAKE2b.
//! The tree itself and the hash function come from the `sparse-merkle-tree`
//! and `blake2b-ref` crates; everything this crate states about them is
//! collected in clearly marked trusted items, and the logic built on top of
//! them is verified against those statements.

pub mod digest;
pub mod hashing;
pub mod word;
pub mod error;
pub mod merkle_proof;
pub mod tree;
pub mod words;
pub mod pangram;
pub mod factors;
