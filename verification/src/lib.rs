//! A Bloom filter over words: a fixed-size bit array that answers "was this
//! string added before?" with no false negatives, probing four bit positions
//! derived from one 64-bit hash of the string.

pub mod bits;
pub mod filter;
pub mod hashing;
pub mod laws;
pub mod model;

pub use filter::BitArray;
pub use hashing::{hash_word, split_hash};
