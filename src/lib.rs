//! A Bloom filter whose membership logic is verified: an item that was
//! added is always reported as present.

pub mod bitset;
pub mod key;
pub mod filter;
pub mod evaluate;
