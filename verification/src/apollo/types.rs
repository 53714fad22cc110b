//! What Apollo nodes send, and what the protocol has its surroundings do.

use crate::chain::block::{Block, Round};
use crate::digest::Digest;
use crate::mempool::batch::CachedBatch;
use crate::mempool::messages::BatcherConsensusMsg;
use crate::mempool::processor::HashedBatch;
use crate::mempool::tx::Replica;
use std::sync::Arc;
use vstd::prelude::*;

verus! {

/// A leader's proposal of a block for a round.
pub struct Propose {
    pub block_hash: Digest,
    pub round: Round,
    /// The node that signed the proposal.
    pub origin: Replica,
    pub auth: Arc<Vec<u8>>,
    /// Whether `auth` is a signature of `origin` on the proposal.
    pub signed: bool,
}

/// A message between nodes.
pub enum ProtocolMsg<Tx> {
    /// A leader's proposal, with its block and the batch of the block.
    NewProposal(Arc<Propose>, Arc<Block>, HashedBatch<Tx>),
    /// The proposal of one's round, handed on to the next leader.
    Relay(Replica, Arc<Propose>),
    /// A node asks for the block with this hash.
    Request(Replica, u64, Digest),
    /// The answer to a request.
    Response(Replica, u64, Arc<Propose>, Arc<Block>, HashedBatch<Tx>),
    /// A blame, as it came.
    Blame(Arc<Vec<u8>>),
}

/// What is to be done outside the protocol, in this order.
pub enum Action<Tx> {
    Send { to: Replica, msg: ProtocolMsg<Tx> },
    /// Send to every other node.
    Multicast(ProtocolMsg<Tx>),
    /// Tell every client of a proposal and the transactions in it.
    NotifyClients { prop: Arc<Propose>, block: Arc<Block>, tx_hashes: Arc<Vec<Digest>> },
    /// File a batch in the cache and in the durable store.
    Persist(HashedBatch<Tx>),
    /// Read the batch of a block that was accepted in a round, and tell the batcher of it.
    Admit { block: Arc<Block>, round: Round },
    /// Read the batch of a committed block, and settle the block.
    Settle(Arc<Block>),
    /// Read the batch of a requested block, and answer the request.
    Serve { to: Replica, req_id: u64, prop: Arc<Propose>, block: Arc<Block> },
    Blame(Arc<Vec<u8>>),
    ToBatcher(BatcherConsensusMsg<Tx>),
    ToRouter(Arc<CachedBatch<Tx>>),
    /// Forget the sends that were acknowledged.
    CollectHandlers,
}

/// Why a node cannot go on.
#[derive(Debug, Clone, Copy, PartialEq, Eq, Structural)]
pub enum Halt {
    /// A block is to commit, and one of its ancestors is not here.
    BrokenChain,
    /// A round or a height is too large to count on.
    Overflow,
}

} // verus!
