//! Messages between clients, the mempool and the consensus engine.

use crate::digest::Digest;
use crate::mempool::batch::CachedBatch;
use crate::mempool::tx::Replica;
use std::sync::Arc;
use vstd::prelude::*;

verus! {

/// What the consensus engine tells a count-sealed mempool. Nothing there depends on it yet.
pub enum ConsensusMempoolMsg<Id, Round> {
    /// The round advanced.
    End(Round),
    /// A peer referred to batches that are not known here.
    UnknownBatch(Id, Vec<Digest>),
}

/// What the consensus engine tells the keyed batcher.
pub enum BatcherConsensusMsg<Tx> {
    /// A new round begins; its leader may propose in it.
    NewRound { leader: Replica, round: u64 },
    /// A proposal that carries `batch` was admitted at `round`.
    Proposed { batch: Arc<CachedBatch<Tx>>, round: u64 },
    /// `batch` committed at `round`.
    Committed { batch: Arc<CachedBatch<Tx>>, round: u64 },
    /// The chain switched away from `rounds`.
    Rollback { rounds: Vec<u64> },
}

/// The address of a socket.
#[derive(Debug, Clone, Copy, PartialEq, Eq, Structural)]
pub enum PeerAddr {
    V4 { ip4: u32, port: u16 },
    V6 { ip6: u128, port: u16, flowinfo: u32, scope_id: u32 },
}

/// What clients and servers of the keyed mempool send each other.
pub enum ClientMsg<Tx> {
    /// One transaction.
    NewTx { tx: Arc<Tx>, reply_to: PeerAddr },
    /// Several transactions at once.
    NewBatch { batch: Vec<Arc<Tx>>, reply_to: PeerAddr },
    /// From server to client: the transaction with this hash has committed.
    Confirmation(Digest),
}

} // verus!
