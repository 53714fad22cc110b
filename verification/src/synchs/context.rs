//! What a Sync HotStuff node keeps while it runs.

use crate::chain::block::{Height, ViewNumber};
use crate::chain::storage::{Storage, StorageState};
use crate::config::node::Node;
use crate::config::{others, peers_of};
use crate::digest::{Digest, DigestMap};
use crate::fnv_map::FnvMap;
use crate::mempool::processor::HashedBatch;
use crate::mempool::tx::{ClientId, Replica};
use crate::synchs::queue::TxQueue;
use crate::synchs::state::State;
use crate::synchs::types::{empty_hash, Action, Block, CertType, Certificate, ProtocolMsg};
use std::collections::VecDeque;
use std::sync::Arc;
use vstd::prelude::*;

verus! {

/// A Sync HotStuff node. What it wants done outside is in `outbox`, in order.
pub struct Context<Tx> {
    /// Every node but this one.
    pub broadcast_peers: Vec<Replica>,
    pub all_clients: Vec<ClientId>,
    pub pending_batches: VecDeque<HashedBatch<Tx>>,
    pub num_nodes: usize,
    pub myid: Replica,
    pub num_faults: usize,
    pub payload: usize,
    /// The nodes whose key is known.
    pub pub_key_map: FnvMap<Replica, ()>,
    pub storage: Storage<Block>,
    pub tx_pool: TxQueue<Tx>,
    pub cert_map: DigestMap<Arc<Certificate>>,
    pub height: Height,
    pub last_leader: Replica,
    pub last_seen_block: Arc<Block>,
    pub last_seen_cert: Arc<Certificate>,
    pub last_committed_block_ht: Height,
    pub vote_map: DigestMap<Arc<Certificate>>,
    pub view: ViewNumber,
    pub outbox: Vec<Action<Tx>>,
}

impl<Tx> View for Context<Tx> {
    type V = State<Tx>;

    open spec fn view(&self) -> State<Tx> {
        State {
            num_nodes: self.num_nodes,
            num_faults: self.num_faults,
            myid: self.myid,
            keys: self.pub_key_map@.dom(),
            storage: self.storage@,
            cert_map: self.cert_map@,
            vote_map: self.vote_map@,
            height: self.height,
            last_leader: self.last_leader,
            last_seen: self.last_seen_block,
            last_seen_cert: self.last_seen_cert,
            last_committed_ht: self.last_committed_block_ht,
            view: self.view,
            txs: self.tx_pool@,
            pending: self.pending_batches@,
            clients: self.all_clients@,
            payload: self.payload,
            peers: self.broadcast_peers@,
            outbox: self.outbox@,
        }
    }
}

/// The ids that have an entry, each with nothing.
fn ids_of(m: &FnvMap<Replica, Vec<u8>>) -> (k: FnvMap<Replica, ()>)
    ensures
        k@.dom() == m@.dom(),
{
    let ids = m.keys();
    let mut k: FnvMap<Replica, ()> = FnvMap::new();
    let mut i: usize = 0;
    assert(k@.dom() =~= ids@.take(0).to_set());
    while i < ids.len()
        invariant
            i <= ids@.len(),
            k@.dom() == ids@.take(i as int).to_set(),
        decreases ids@.len() - i,
    {
        k.insert(ids[i], ());
        proof {
            let a = ids@.take(i as int);
            let b = ids@.take(i + 1);
            assert(b =~= a.push(ids@[i as int]));
            assert(b[i as int] == ids@[i as int]);
            assert forall|r: Replica| a.contains(r) implies b.contains(r) by {
                let n = choose|n: int| 0 <= n < a.len() && a[n] == r;
                assert(b[n] == r);
            }
            assert(k@.dom() =~= b.to_set());
        }
        i = i + 1;
    }
    assert(ids@.take(i as int) =~= ids@);
    k
}

/// Whether a node is in the first view, with nothing but the first block, which is certified
/// without a vote.
pub open spec fn is_fresh<Tx>(s: State<Tx>, config: Node, genesis: Arc<Block>) -> bool {
    &&& s == State {
        num_nodes: config.num_nodes,
        num_faults: config.num_faults,
        myid: config.id,
        keys: config.pk_map@.dom(),
        storage: (StorageState {
            delivered: Map::empty(),
            by_height: Map::empty(),
            committed: Map::empty(),
        }).deliver(genesis).commit(genesis),
        cert_map: Map::<Digest, Arc<Certificate>>::empty().insert(genesis.hash, s.last_seen_cert),
        vote_map: Map::empty(),
        height: 0,
        last_leader: 0,
        last_seen: genesis,
        last_seen_cert: s.last_seen_cert,
        last_committed_ht: 0,
        view: 0,
        txs: Seq::empty(),
        pending: Seq::empty(),
        clients: s.clients,
        payload: (config.payload * config.block_size) as usize,
        peers: others(config.num_nodes as nat, config.id),
        outbox: Seq::<Action<Tx>>::empty(),
    }
    &&& s.last_seen_cert.msg == CertType::Vote(0, empty_hash())
    &&& s.last_seen_cert.votes@.len() == 0
    &&& s.clients.no_duplicates()
    &&& s.clients.to_set() == config.client_net_map@.dom()
}

/// How many milliseconds pass between a proposal and its commit: twice the network delay.
pub fn commit_delay_millis(config: &Node) -> (r: u64)
    requires
        2 * config.delta <= u64::MAX,
    ensures
        r == 2 * config.delta,
{
    2 * config.delta
}

impl<Tx> Context<Tx> {
    /// A node in the first view, with nothing but the first block, which is certified.
    pub fn new(config: &Node, genesis: Arc<Block>) -> (c: Self)
        requires
            0 < config.num_nodes <= u16::MAX,
            config.payload * config.block_size <= usize::MAX,
        ensures
            c@.inv(),
            is_fresh(c@, *config, genesis),
    {
        let cert = Arc::new(Certificate::empty_cert());
        let mut cert_map: DigestMap<Arc<Certificate>> = DigestMap::new();
        cert_map.insert(genesis.hash, Arc::clone(&cert));
        Context {
            broadcast_peers: peers_of(config.num_nodes as u16, config.id),
            all_clients: config.client_net_map.keys(),
            pending_batches: VecDeque::new(),
            num_nodes: config.num_nodes,
            myid: config.id,
            num_faults: config.num_faults,
            payload: config.payload * config.block_size,
            pub_key_map: ids_of(&config.pk_map),
            storage: Storage::new(Arc::clone(&genesis)),
            tx_pool: TxQueue::new(),
            cert_map,
            height: 0,
            last_leader: 0,
            last_seen_block: genesis,
            last_seen_cert: cert,
            last_committed_block_ht: 0,
            vote_map: DigestMap::new(),
            view: 0,
            outbox: Vec::new(),
        }
    }

    /// The next leader is the current one.
    pub fn next_leader(&self) -> (r: Replica)
        ensures
            r == self@.last_leader,
    {
        self.last_leader
    }

    /// The leader of the view.
    pub fn leader_of_view(&self) -> (r: Replica)
        requires
            0 < self.num_nodes <= u16::MAX,
        ensures
            r == self@.leader_of_view(),
            r < self.num_nodes,
    {
        (self.view % self.num_nodes as u64) as Replica
    }

    /// Sends a message to every other node.
    pub fn multicast(&mut self, msg: ProtocolMsg<Tx>)
        ensures
            final(self)@ == old(self)@.with_action(Action::Multicast(msg)),
    {
        self.outbox.push(Action::Multicast(msg));
    }

    /// Tells every client of a committed block, if there are clients.
    pub fn multicast_client(&mut self, block: Arc<Block>, tx_hashes: Arc<Vec<Digest>>)
        ensures
            final(self)@ == old(self)@.announced(block, tx_hashes),
    {
        if self.all_clients.len() == 0 {
            return ;
        }
        let payload: usize = self.payload;
        self.outbox.push(Action::NotifyClients { block, tx_hashes, payload });
    }
}

} // verus!
