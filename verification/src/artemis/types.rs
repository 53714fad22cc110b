//! What Artemis nodes send, and what the protocol has its surroundings do.

use crate::chain::block::{Block, ChainBlock, Header, Round, ViewNumber};
use crate::digest::Digest;
use crate::mempool::batch::CachedBatch;
use crate::mempool::messages::BatcherConsensusMsg;
use crate::mempool::processor::HashedBatch;
use crate::mempool::tx::Replica;
use std::sync::Arc;
use vstd::prelude::*;

verus! {

/// A block with the signature of its proposer.
pub struct SignedBlock {
    pub blk: Block,
    /// The node that claims to have signed.
    pub origin: Replica,
    pub auth: Arc<Vec<u8>>,
    /// The node under whose key `auth` is a signature on the block, if there is one.
    pub signer: Option<Replica>,
}

impl ChainBlock for SignedBlock {
    open spec fn spec_hash(&self) -> Digest {
        self.blk.hash
    }

    open spec fn spec_header(&self) -> Header {
        self.blk.header
    }

    fn get_hash(&self) -> (h: Digest) {
        self.blk.hash
    }

    fn get_header(&self) -> (h: Header) {
        self.blk.header
    }
}

/// A round leader's vote for a chain of blocks.
pub struct UCRVote {
    /// The hash of the last block of the chain.
    pub hash: Digest,
    pub round: Round,
    pub view: ViewNumber,
    /// The node that claims to have signed.
    pub origin: Replica,
    pub auth: Arc<Vec<u8>>,
    /// The node under whose key `auth` is a signature on the vote, if there is one.
    pub signer: Option<Replica>,
}

/// A message between nodes.
pub enum ProtocolMsg<Tx> {
    Invalid,
    /// A block of the view leader, with its batch.
    NewBlock(Arc<SignedBlock>, HashedBatch<Tx>),
    /// A round leader's vote.
    UCRVote(Arc<UCRVote>),
    /// The vote of one's round, handed on to the next leader.
    Relay(Replica, Arc<UCRVote>),
    /// A node asks for the block with this hash.
    Request(Replica, u64, Digest),
    /// The answer to a request.
    Response(Replica, u64, Arc<SignedBlock>, HashedBatch<Tx>),
    /// A blame, as it came.
    Blame(Arc<Vec<u8>>),
}

/// Something that is counted.
#[derive(Debug, Clone, Copy, PartialEq, Eq, Structural)]
pub enum Metric {
    Propose,
    Vote,
    RoundAdvance,
    BatchRecv,
    ReactorIter,
}

/// What is to be done outside the protocol, in this order.
pub enum Action<Tx> {
    Send { to: Replica, msg: ProtocolMsg<Tx> },
    /// Send to every other node.
    Multicast(ProtocolMsg<Tx>),
    /// File a batch in the cache and in the durable store.
    Persist(HashedBatch<Tx>),
    /// Read the batch of a committed block, and settle the block.
    Settle(Arc<SignedBlock>),
    /// Read the batch of a requested block, and answer the request.
    Serve { to: Replica, req_id: u64, block: Arc<SignedBlock> },
    Blame(Arc<Vec<u8>>),
    ToBatcher(BatcherConsensusMsg<Tx>),
    ToRouter(Arc<CachedBatch<Tx>>),
    Record(Metric),
    /// Forget the sends that were acknowledged.
    CollectHandlers,
}

/// Why a node cannot go on.
#[derive(Debug, Clone, Copy, PartialEq, Eq, Structural)]
pub enum Halt {
    /// A block is to commit, and one of its ancestors is not here.
    BrokenChain,
    /// A round, a height or a count is too large.
    Overflow,
}

} // verus!
