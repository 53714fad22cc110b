//! Blocks and the index of a chain of blocks.

pub mod block;
pub mod storage;
