//! A bloom filter: a fixed-length bit array combined with several
//! independently keyed hash functions, answering "was this element probably
//! inserted before?" with no false negatives and a tunable false-positive
//! rate.

pub mod bits;
pub mod filter;
pub mod hashing;

pub use filter::BloomFilter;
pub use filter::FilterError;
pub use hashing::Hashable;
