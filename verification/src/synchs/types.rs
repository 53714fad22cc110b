//! What Sync HotStuff nodes send, and what the protocol has its surroundings do.

use crate::chain::block::{ChainBlock, Header, ViewNumber};
use crate::digest::Digest;
use crate::mempool::processor::HashedBatch;
use crate::mempool::tx::Replica;
use std::sync::Arc;
use vstd::prelude::*;

verus! {

/// The hash of the first block: all zeros.
pub open spec fn empty_hash() -> Digest {
    Digest { hi: 0, lo: 0 }
}

/// The hash of the first block: all zeros.
pub fn first_hash() -> (h: Digest)
    ensures
        h == empty_hash(),
{
    Digest { hi: 0, lo: 0 }
}

/// A block.
pub struct Block {
    pub header: Header,
    /// The hashes of the transactions in the block.
    pub tx_hashes: Arc<Vec<Digest>>,
    /// The hash of the batch of these transactions.
    pub batch_hash: Digest,
    /// The hash of all the rest.
    pub hash: Digest,
}

impl ChainBlock for Block {
    open spec fn spec_hash(&self) -> Digest {
        self.hash
    }

    open spec fn spec_header(&self) -> Header {
        self.header
    }

    fn get_hash(&self) -> (h: Digest) {
        self.hash
    }

    fn get_header(&self) -> (h: Header) {
        self.header
    }
}

/// What a certificate certifies.
#[derive(Debug, Clone, Copy, PartialEq, Eq, Structural)]
pub enum CertType {
    /// The block with this hash has votes in this view.
    Vote(ViewNumber, Digest),
    /// This node is blamed in this view.
    Blame(ViewNumber, Replica),
}

/// One vote of a certificate.
pub struct Vote {
    pub origin: Replica,
    pub auth: Arc<Vec<u8>>,
    /// Whether `auth` is a signature of `origin` on what the certificate certifies.
    pub signed: bool,
}

/// Votes for the same thing.
pub struct Certificate {
    pub msg: CertType,
    pub votes: Vec<Arc<Vote>>,
}

impl Certificate {
    /// A certificate without votes.
    pub fn empty_cert() -> (c: Self)
        ensures
            c.msg == CertType::Vote(0, empty_hash()),
            c.votes@.len() == 0,
    {
        Certificate { msg: CertType::Vote(0, first_hash()), votes: Vec::new() }
    }

    /// This certificate with one more vote.
    pub fn with_vote(&self, v: Arc<Vote>) -> (c: Self)
        ensures
            c.msg == self.msg,
            c.votes@ == self.votes@.push(v),
    {
        let mut votes: Vec<Arc<Vote>> = Vec::new();
        let mut i: usize = 0;
        while i < self.votes.len()
            invariant
                i <= self.votes@.len(),
                votes@ == self.votes@.take(i as int),
            decreases self.votes@.len() - i,
        {
            votes.push(Arc::clone(&self.votes[i]));
            assert(votes@ =~= self.votes@.take(i + 1));
            i = i + 1;
        }
        assert(self.votes@.take(i as int) =~= self.votes@);
        votes.push(v);
        Certificate { msg: self.msg, votes }
    }
}

/// A leader's proposal of a block.
pub struct Propose {
    pub block_hash: Digest,
    /// The certificate of the parent.
    pub cert: Arc<Certificate>,
    pub view: ViewNumber,
    pub proof: Arc<Vec<u8>>,
    /// Whether `proof` is a signature of the author of the block on its hash.
    pub signed: bool,
}

/// A message between nodes.
pub enum ProtocolMsg<Tx> {
    /// A leader's proposal, with its block and, where batches are used, the batch.
    NewProposal(Arc<Propose>, Arc<Block>, Option<HashedBatch<Tx>>),
    /// One vote for a proposal.
    VoteMsg(Arc<Certificate>, Arc<Propose>),
}

/// What is to be done outside the protocol, in this order.
pub enum Action<Tx> {
    /// Send to every other node.
    Multicast(ProtocolMsg<Tx>),
    /// File a batch in the cache and in the durable store.
    Persist(HashedBatch<Tx>),
    /// Commit this proposal once twice the network delay has passed.
    Schedule(Arc<Propose>),
    /// Read the batch of a committed block, and tell the clients of the block.
    Announce(Arc<Block>),
    /// Tell every client of a committed block and its transactions, with this much payload.
    NotifyClients { block: Arc<Block>, tx_hashes: Arc<Vec<Digest>>, payload: usize },
    /// Forget the sends that were acknowledged.
    CollectHandlers,
}

/// Why a node cannot go on.
#[derive(Debug, Clone, Copy, PartialEq, Eq, Structural)]
pub enum Halt {
    /// The key of the view's leader is not known.
    UnknownLeader,
    /// The leader signed a proposal for another view.
    WrongView,
    /// A vote message carries something else than a vote.
    NotAVote,
    /// A height is too large to count on.
    Overflow,
}

} // verus!
