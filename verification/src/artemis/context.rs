//! What an Artemis node keeps while it runs.

use crate::artemis::leaders::{ids, Draw, Leaders};
use crate::artemis::state::State;
use crate::artemis::types::{Action, Halt, Metric, ProtocolMsg, SignedBlock, UCRVote};
use crate::chain::block::{Round, ViewNumber};
use crate::chain::storage::{Storage, StorageState};
use crate::config::node::Node;
use crate::config::{others, peers_of};
use crate::digest::{Digest, DigestMap};
use crate::fnv_map::FnvMap;
use crate::mempool::messages::BatcherConsensusMsg;
use crate::mempool::processor::HashedBatch;
use crate::mempool::tx::Replica;
use std::collections::VecDeque;
use std::sync::Arc;
use vstd::prelude::*;

verus! {

/// An Artemis node. What it wants done outside is in `outbox`, in order.
pub struct Context<Tx> {
    pub num_nodes: usize,
    pub num_faults: usize,
    pub myid: Replica,
    /// Every node but this one.
    pub broadcast_peers: Vec<Replica>,
    pub pending_batches: VecDeque<HashedBatch<Tx>>,
    pub storage: Storage<SignedBlock>,
    pub vote_chain: FnvMap<Round, Arc<UCRVote>>,
    pub round_leader: Replica,
    pub leaders: Leaders,
    pub view_leader: Replica,
    pub view: ViewNumber,
    pub round: Round,
    pub last_seen_block: Arc<SignedBlock>,
    pub last_voted_block: Arc<SignedBlock>,
    pub req_ctr: u64,
    pub payload: usize,
    pub block_size: usize,
    pub bench_committed_tx_count: u64,
    pub bench_emit_window_secs: u64,
    pub bench_metrics_node: Replica,
    pub vote_waiting: DigestMap<Arc<UCRVote>>,
    pub vote_ready: FnvMap<Round, Arc<UCRVote>>,
    pub block_processing_waiting: VecDeque<(Arc<SignedBlock>, HashedBatch<Tx>)>,
    pub response_waiting: VecDeque<(Replica, Arc<SignedBlock>, HashedBatch<Tx>)>,
    pub other_buf: VecDeque<ProtocolMsg<Tx>>,
    pub block_parent_waiting: DigestMap<Digest>,
    pub undelivered_blocks: DigestMap<Arc<SignedBlock>>,
    pub outbox: Vec<Action<Tx>>,
}

impl<Tx> View for Context<Tx> {
    type V = State<Tx>;

    open spec fn view(&self) -> State<Tx> {
        State {
            num_nodes: self.num_nodes,
            num_faults: self.num_faults,
            myid: self.myid,
            storage: self.storage@,
            vote_chain: self.vote_chain@,
            round_leader: self.round_leader,
            draw: self.leaders@,
            view_leader: self.view_leader,
            view: self.view,
            round: self.round,
            last_seen: self.last_seen_block,
            last_voted: self.last_voted_block,
            req_ctr: self.req_ctr,
            block_size: self.block_size,
            committed_txs: self.bench_committed_tx_count,
            metrics_node: self.bench_metrics_node,
            peers: self.broadcast_peers@,
            payload: self.payload,
            emit_window_secs: self.bench_emit_window_secs,
            vote_waiting: self.vote_waiting@,
            vote_ready: self.vote_ready@,
            blocks: self.block_processing_waiting@,
            responses: self.response_waiting@,
            other_buf: self.other_buf@,
            parent_waiting: self.block_parent_waiting@,
            undelivered: self.undelivered_blocks@,
            pending: self.pending_batches@,
            outbox: self.outbox@,
        }
    }
}

impl<Tx> Context<Tx> {
    /// A node in the first round, with nothing but the first block. Node zero leads the view;
    /// the first `num_faults` nodes have led lately, the last of them last.
    pub fn new(config: &Node, genesis: Arc<SignedBlock>) -> (c: Self)
        requires
            0 < config.num_faults < config.num_nodes <= u16::MAX,
            config.payload * config.block_size <= usize::MAX,
        ensures
            c@.inv(),
            c@ == (State {
                num_nodes: config.num_nodes,
                num_faults: config.num_faults,
                myid: config.id,
                storage: (StorageState {
                    delivered: Map::empty(),
                    by_height: Map::empty(),
                    committed: Map::empty(),
                }).deliver(genesis).commit(genesis),
                vote_chain: Map::empty(),
                round_leader: (config.num_faults - 1) as Replica,
                draw: Draw {
                    recent: ids(0, config.num_faults as int),
                    eligible: ids(config.num_faults as int, config.num_nodes as int),
                },
                view_leader: 0,
                view: 0,
                round: 1,
                last_seen: genesis,
                last_voted: genesis,
                req_ctr: 0,
                block_size: config.block_size,
                committed_txs: 0,
                metrics_node: config.bench_metrics_node,
                peers: others(config.num_nodes as nat, config.id),
                payload: (config.payload * config.block_size) as usize,
                emit_window_secs: if config.bench_emit_window_secs == 0 {
                    1
                } else {
                    config.bench_emit_window_secs
                },
                vote_waiting: Map::empty(),
                vote_ready: Map::empty(),
                blocks: Seq::empty(),
                responses: Seq::empty(),
                other_buf: Seq::empty(),
                parent_waiting: Map::empty(),
                undelivered: Map::empty(),
                pending: Seq::empty(),
                outbox: Seq::<Action<Tx>>::empty(),
            }),
    {
        Context {
            num_nodes: config.num_nodes,
            num_faults: config.num_faults,
            myid: config.id,
            broadcast_peers: peers_of(config.num_nodes as u16, config.id),
            pending_batches: VecDeque::new(),
            storage: Storage::new(Arc::clone(&genesis)),
            vote_chain: FnvMap::new(),
            round_leader: (config.num_faults - 1) as Replica,
            leaders: Leaders::new(config.num_faults as u16, config.num_nodes as u16),
            view_leader: 0,
            view: 0,
            round: 1,
            last_seen_block: Arc::clone(&genesis),
            last_voted_block: genesis,
            req_ctr: 0,
            payload: config.payload * config.block_size,
            block_size: config.block_size,
            bench_committed_tx_count: 0,
            bench_emit_window_secs: if config.bench_emit_window_secs == 0 {
                1
            } else {
                config.bench_emit_window_secs
            },
            bench_metrics_node: config.bench_metrics_node,
            vote_waiting: DigestMap::new(),
            vote_ready: FnvMap::new(),
            block_processing_waiting: VecDeque::new(),
            response_waiting: VecDeque::new(),
            other_buf: VecDeque::new(),
            block_parent_waiting: DigestMap::new(),
            undelivered_blocks: DigestMap::new(),
            outbox: Vec::new(),
        }
    }

    /// Begins the next round, with the leader that is drawn for it.
    pub fn update_round(&mut self) -> (r: Result<(), Halt>)
        requires
            old(self)@.draw.sound(),
        ensures
            match r {
                Ok(()) => old(self)@.advanced() == Ok::<State<Tx>, Halt>(final(self)@),
                Err(h) => old(self)@.advanced() == Err::<State<Tx>, Halt>(h),
            },
            final(self)@.draw.sound(),
    {
        if self.round == u64::MAX {
            return Err(Halt::Overflow);
        }
        self.outbox.push(Action::Record(Metric::RoundAdvance));
        self.round_leader = self.leaders.draw(self.round);
        self.round = self.round + 1;
        self.outbox.push(Action::CollectHandlers);
        Ok(())
    }

    /// Who leads the next round.
    pub fn next_round_leader(&self) -> (r: Replica)
        requires
            self@.draw.eligible.len() > 0,
            self@.round < u64::MAX,
        ensures
            r == self@.draw.next_leader(self@.round),
    {
        self.leaders.next_round_leader(self.round)
    }

    /// Tells the batcher at which height the next block will be.
    pub fn announce_height_to_batcher(&mut self) -> (r: Result<(), Halt>)
        ensures
            match r {
                Ok(()) => old(self)@.announced() == Ok::<State<Tx>, Halt>(final(self)@),
                Err(h) => old(self)@.announced() == Err::<State<Tx>, Halt>(h),
            },
    {
        let height: u64 = self.last_seen_block.blk.header.height;
        if height == u64::MAX {
            return Err(Halt::Overflow);
        }
        let leader = self.view_leader;
        self.outbox.push(
            Action::ToBatcher(BatcherConsensusMsg::NewRound { leader, round: height + 1 }),
        );
        Ok(())
    }

    pub fn num_nodes(&self) -> (n: usize)
        ensures
            n == self.num_nodes,
    {
        self.num_nodes
    }

    pub fn num_faults(&self) -> (n: usize)
        ensures
            n == self.num_faults,
    {
        self.num_faults
    }

    pub fn myid(&self) -> (id: Replica)
        ensures
            id == self.myid,
    {
        self.myid
    }

    pub fn round(&self) -> (r: Round)
        ensures
            r == self.round,
    {
        self.round
    }

    /// Sends a message, unless it is to this node itself.
    pub fn send(&mut self, to: Replica, msg: ProtocolMsg<Tx>)
        ensures
            final(self)@ == old(self)@.sent(to, msg),
    {
        if to != self.myid {
            self.outbox.push(Action::Send { to, msg });
        }
    }

    /// Sends a message to every other node.
    pub fn multicast(&mut self, msg: ProtocolMsg<Tx>)
        ensures
            final(self)@ == old(self)@.with_action(Action::Multicast(msg)),
    {
        self.outbox.push(Action::Multicast(msg));
    }
}

} // verus!
