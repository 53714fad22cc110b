//! What an Apollo node keeps while it runs.

use crate::apollo::state::{turn, Arrival, State};
use crate::apollo::types::{Action, Halt, Propose, ProtocolMsg};
use crate::chain::block::{Block, Round};
use crate::chain::storage::{Storage, StorageState};
use crate::config::node::Node;
use crate::config::{others, peers_of};
use crate::digest::{Digest, DigestMap};
use crate::fnv_map::FnvMap;
use crate::hash::{hash_all, hashes_of};
use crate::mempool::batch::CachedBatch;
use crate::mempool::messages::BatcherConsensusMsg;
use crate::mempool::processor::HashedBatch;
use crate::mempool::tx::{ClientId, Replica};
use std::collections::VecDeque;
use std::sync::Arc;
use vstd::prelude::*;

verus! {

/// An Apollo node. What it wants done outside is in `outbox`, in order.
pub struct Context<Tx> {
    pub num_nodes: usize,
    pub num_faults: usize,
    pub myid: Replica,
    pub is_client_apollo_enabled: bool,
    /// Every node but this one.
    pub broadcast_peers: Vec<Replica>,
    pub all_clients: Vec<ClientId>,
    pub pending_batches: VecDeque<HashedBatch<Tx>>,
    pub prop_buf: VecDeque<Arrival<Tx>>,
    pub relay_buf: VecDeque<(Replica, Arc<Propose>)>,
    pub other_buf: VecDeque<ProtocolMsg<Tx>>,
    pub future_msgs: FnvMap<Round, (Replica, Arc<Propose>)>,
    pub storage: Storage<Block>,
    pub prop_chain_by_round: FnvMap<Round, Arc<Propose>>,
    pub prop_chain_by_hash: DigestMap<Arc<Propose>>,
    pub round: Round,
    pub round_leader: Replica,
    pub payload: usize,
    pub block_size: usize,
    pub bench_committed_tx_count: u64,
    pub bench_emit_window_secs: u64,
    pub bench_metrics_node: Replica,
    pub last_seen_block: Arc<Block>,
    pub prop_waiting: DigestMap<Arc<Propose>>,
    pub prop_waiting_parent: DigestMap<Arc<Propose>>,
    pub req_ctr: u64,
    pub outbox: Vec<Action<Tx>>,
}

impl<Tx> View for Context<Tx> {
    type V = State<Tx>;

    open spec fn view(&self) -> State<Tx> {
        State {
            num_nodes: self.num_nodes,
            num_faults: self.num_faults,
            myid: self.myid,
            client_apollo: self.is_client_apollo_enabled,
            round: self.round,
            leader: self.round_leader,
            storage: self.storage@,
            by_round: self.prop_chain_by_round@,
            by_hash: self.prop_chain_by_hash@,
            last_seen: self.last_seen_block,
            prop_buf: self.prop_buf@,
            relay_buf: self.relay_buf@,
            other_buf: self.other_buf@,
            future: self.future_msgs@,
            waiting: self.prop_waiting@,
            waiting_parent: self.prop_waiting_parent@,
            req_ctr: self.req_ctr,
            pending: self.pending_batches@,
            committed_txs: self.bench_committed_tx_count,
            metrics_node: self.bench_metrics_node,
            peers: self.broadcast_peers@,
            clients: self.all_clients@,
            payload: self.payload,
            block_size: self.block_size,
            emit_window_secs: self.bench_emit_window_secs,
            outbox: self.outbox@,
        }
    }
}

impl<Tx> Context<Tx> {
    /// A node in the first round, with node zero as its leader and nothing but the first block.
    pub fn new(config: &Node, genesis: Arc<Block>, is_apollo_enabled: bool) -> (c: Self)
        requires
            0 < config.num_nodes <= u16::MAX,
        ensures
            c@.inv(),
            c@ == (State {
                num_nodes: config.num_nodes,
                num_faults: config.num_faults,
                myid: config.id,
                client_apollo: is_apollo_enabled,
                round: 1,
                leader: 0,
                storage: (StorageState {
                    delivered: Map::empty(),
                    by_height: Map::empty(),
                    committed: Map::empty(),
                }).deliver(genesis).commit(genesis),
                by_round: Map::empty(),
                by_hash: Map::empty(),
                last_seen: genesis,
                prop_buf: Seq::empty(),
                relay_buf: Seq::empty(),
                other_buf: Seq::empty(),
                future: Map::empty(),
                waiting: Map::empty(),
                waiting_parent: Map::empty(),
                req_ctr: 0,
                pending: Seq::empty(),
                committed_txs: 0,
                metrics_node: config.bench_metrics_node,
                peers: others(config.num_nodes as nat, config.id),
                clients: c@.clients,
                payload: config.payload,
                block_size: config.block_size,
                emit_window_secs: if config.bench_emit_window_secs == 0 {
                    1
                } else {
                    config.bench_emit_window_secs
                },
                outbox: Seq::<Action<Tx>>::empty(),
            }),
            c@.clients.no_duplicates(),
            c@.clients.to_set() == config.client_net_map@.dom(),
    {
        let broadcast_peers = peers_of(config.num_nodes as u16, config.id);
        let all_clients = config.client_net_map.keys();
        Context {
            num_nodes: config.num_nodes,
            num_faults: config.num_faults,
            myid: config.id,
            is_client_apollo_enabled: is_apollo_enabled,
            broadcast_peers,
            all_clients,
            pending_batches: VecDeque::new(),
            prop_buf: VecDeque::new(),
            relay_buf: VecDeque::new(),
            other_buf: VecDeque::new(),
            future_msgs: FnvMap::new(),
            storage: Storage::new(Arc::clone(&genesis)),
            prop_chain_by_round: FnvMap::new(),
            prop_chain_by_hash: DigestMap::new(),
            round: 1,
            round_leader: 0,
            payload: config.payload,
            block_size: config.block_size,
            bench_committed_tx_count: 0,
            bench_emit_window_secs: if config.bench_emit_window_secs == 0 {
                1
            } else {
                config.bench_emit_window_secs
            },
            bench_metrics_node: config.bench_metrics_node,
            last_seen_block: genesis,
            prop_waiting: DigestMap::new(),
            prop_waiting_parent: DigestMap::new(),
            req_ctr: 0,
            outbox: Vec::new(),
        }
    }

    pub fn num_faults(&self) -> (n: usize)
        ensures
            n == self.num_faults,
    {
        self.num_faults
    }

    pub fn myid(&self) -> (id: Replica)
        ensures
            id == self.myid,
    {
        self.myid
    }

    pub fn round(&self) -> (r: Round)
        ensures
            r == self.round,
    {
        self.round
    }

    pub fn is_client_apollo_enabled(&self) -> (b: bool)
        ensures
            b == self.is_client_apollo_enabled,
    {
        self.is_client_apollo_enabled
    }

    pub fn round_leader(&self) -> (r: Replica)
        ensures
            r == self.round_leader,
    {
        self.round_leader
    }

    /// The leader that comes after `prev`.
    pub fn next_of(&self, prev: Replica) -> (r: Replica)
        requires
            prev < self.num_nodes <= u16::MAX,
        ensures
            r == self@.next_of(prev),
            r < self.num_nodes,
    {
        if (prev as usize) + 1 == self.num_nodes {
            0
        } else {
            prev + 1
        }
    }

    /// The leader of the next round.
    pub fn next_leader(&self) -> (r: Replica)
        requires
            self@.leader < self@.num_nodes <= u16::MAX,
        ensures
            r == self@.next_of(self@.leader),
            r < self@.num_nodes,
    {
        self.next_of(self.round_leader)
    }

    /// Tells the batcher which round it is and who leads.
    pub fn announce_round(&mut self)
        ensures
            final(self)@ == old(self)@.announced(),
    {
        let leader = self.round_leader;
        let round: u64 = self.round;
        self.outbox.push(Action::ToBatcher(BatcherConsensusMsg::NewRound { leader, round }));
    }

    /// Begins the next round, and tells the batcher of it.
    pub fn update_round(&mut self) -> (r: Result<(), Halt>)
        requires
            old(self)@.leader < old(self)@.num_nodes <= u16::MAX,
        ensures
            match r {
                Ok(()) => old(self)@.advanced() == Ok::<State<Tx>, Halt>(final(self)@),
                Err(h) => old(self)@.advanced() == Err::<State<Tx>, Halt>(h),
            },
            final(self)@.leader < final(self)@.num_nodes <= u16::MAX,
    {
        if self.round == u64::MAX {
            return Err(Halt::Overflow);
        }
        self.round_leader = self.next_leader();
        self.round = self.round + 1;
        self.outbox.push(Action::CollectHandlers);
        self.announce_round();
        Ok(())
    }

    /// The hashes of a batch's transactions: those that are known of it, or else those of
    /// `wires`, the serialized transactions in order.
    pub fn hydrate_tx_hashes(batch: &CachedBatch<Tx>, wires: &Vec<Vec<u8>>) -> (h: Arc<
        Vec<Digest>,
    >)
        ensures
            batch.tx_hashes matches Some(known) ==> h == known,
            batch.tx_hashes is None ==> h@ == hashes_of(wires@),
    {
        match batch.cached_tx_hashes() {
            Some(known) => known,
            None => Arc::new(hash_all(wires)),
        }
    }

    /// Sends a message, unless it is to this node itself.
    pub fn send(&mut self, to: Replica, msg: ProtocolMsg<Tx>)
        ensures
            final(self)@ == old(self)@.sent(to, msg),
    {
        if to != self.myid {
            self.outbox.push(Action::Send { to, msg });
        }
    }

    /// Sends a message to every other node.
    pub fn multicast(&mut self, msg: ProtocolMsg<Tx>)
        ensures
            final(self)@ == old(self)@.with_action(Action::Multicast(msg)),
    {
        self.outbox.push(Action::Multicast(msg));
    }
}

/// The leaders take turns: each round's leader is one of the nodes, and after `num_nodes` rounds
/// the same node leads again.
pub proof fn law_leaders_take_turns(num_nodes: usize, r: Replica, k: nat)
    requires
        r < num_nodes <= u16::MAX,
    ensures
        turn(num_nodes, r, k) < num_nodes,
        turn(num_nodes, r, k) as int == (r + k) % num_nodes as int,
        turn(num_nodes, r, num_nodes as nat) == r,
{
    let n = num_nodes as int;
    lemma_turn(num_nodes, r, k);
    lemma_turn(num_nodes, r, num_nodes as nat);
    assert((r + n) % n == r as int) by {
        vstd::arithmetic::div_mod::lemma_mod_add_multiples_vanish(r as int, n);
        vstd::arithmetic::div_mod::lemma_small_mod(r as nat, n as nat);
    }
}

proof fn lemma_turn(num_nodes: usize, r: Replica, k: nat)
    requires
        r < num_nodes <= u16::MAX,
    ensures
        turn(num_nodes, r, k) < num_nodes,
        turn(num_nodes, r, k) as int == (r + k) % num_nodes as int,
    decreases k,
{
    let n = num_nodes as int;
    if k == 0 {
        vstd::arithmetic::div_mod::lemma_small_mod(r as nat, n as nat);
    } else {
        lemma_turn(num_nodes, r, (k - 1) as nat);
        let m = (r + k - 1) % n;
        vstd::arithmetic::div_mod::lemma_add_mod_noop(r + k - 1, 1, n);
        vstd::arithmetic::div_mod::lemma_add_mod_noop(m, 1, n);
        assert((m + 1) % n == (r + k) % n) by {
            vstd::arithmetic::div_mod::lemma_mod_twice(r + k - 1, n);
        }
        if m + 1 == n {
            vstd::arithmetic::div_mod::lemma_mod_self_0(n);
        } else {
            vstd::arithmetic::div_mod::lemma_small_mod((m + 1) as nat, n as nat);
        }
    }
}

} // verus!
