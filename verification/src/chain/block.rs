//! What every kind of block has.

use crate::digest::Digest;
use crate::mempool::tx::Replica;
use vstd::prelude::*;

verus! {

/// A round of a protocol.
pub type Round = u64;

/// The place of a block in its chain.
pub type Height = u64;

/// A view of a protocol.
pub type ViewNumber = u64;

/// The head of a block.
#[derive(Debug, Clone, Copy, PartialEq, Eq, Structural)]
pub struct Header {
    /// The hash of the parent.
    pub prev: Digest,
    pub author: Replica,
    pub height: Height,
}

/// A block that has a place in a chain.
pub trait ChainBlock: Sized {
    spec fn spec_hash(&self) -> Digest;

    spec fn spec_header(&self) -> Header;

    fn get_hash(&self) -> (h: Digest)
        ensures
            h == self.spec_hash(),
    ;

    fn get_header(&self) -> (h: Header)
        ensures
            h == self.spec_header(),
    ;
}

/// A block that refers to one batch.
#[derive(Debug, Clone, Copy, PartialEq, Eq, Structural)]
pub struct Block {
    pub header: Header,
    /// The hash of the batch.
    pub batch_hash: Digest,
    /// The hash of all the rest.
    pub hash: Digest,
}

impl ChainBlock for Block {
    open spec fn spec_hash(&self) -> Digest {
        self.hash
    }

    open spec fn spec_header(&self) -> Header {
        self.header
    }

    fn get_hash(&self) -> (h: Digest) {
        self.hash
    }

    fn get_header(&self) -> (h: Header) {
        self.header
    }
}

} // verus!
