//! Allocation-free path parsing and normalisation over byte and 16-bit-unit
//! strings, together with a prefix index over normalised paths.

pub mod path;
pub mod trie;
