//! What an Opt Sync node keeps while it runs.

use crate::config::node::Node;
use crate::digest::{Digest, DigestMap};
use crate::mempool::tx::Replica;
use crate::synchs::context::{commit_delay_millis, is_fresh, Context as SyncContext};
use crate::synchs::state::State as SyncState;
use crate::synchs::types::{Block, Certificate};
use std::sync::Arc;
use vstd::prelude::*;

verus! {

/// An Opt Sync node.
pub struct Context<Tx> {
    pub sync: SyncContext<Tx>,
    /// The blocks that can commit at once, with their certificates.
    pub resp_cert: DigestMap<Arc<Certificate>>,
    /// Twice the network delay, in milliseconds.
    pub d2_millis: u64,
}

/// What an Opt Sync node holds.
#[verifier::ext_equal]
pub struct State<Tx> {
    pub sync: SyncState<Tx>,
    pub responsive: Map<Digest, Arc<Certificate>>,
    pub d2_millis: u64,
}

impl<Tx> View for Context<Tx> {
    type V = State<Tx>;

    open spec fn view(&self) -> State<Tx> {
        State { sync: self.sync@, responsive: self.resp_cert@, d2_millis: self.d2_millis }
    }
}

impl<Tx> Context<Tx> {
    /// A node in the first view, with nothing but the first block.
    pub fn new(config: &Node, genesis: Arc<Block>) -> (c: Self)
        requires
            0 < config.num_nodes <= u16::MAX,
            config.payload * config.block_size <= usize::MAX,
            2 * config.delta <= u64::MAX,
        ensures
            c@.sync.inv(),
            c@.responsive == Map::<Digest, Arc<Certificate>>::empty(),
            c@.d2_millis == 2 * config.delta,
            is_fresh(c@.sync, *config, genesis),
    {
        let sync = SyncContext::new(config, genesis);
        Context { sync, resp_cert: DigestMap::new(), d2_millis: commit_delay_millis(config) }
    }

    /// The next leader is the current one.
    pub fn next_leader(&self) -> (r: Replica)
        ensures
            r == self@.sync.last_leader,
    {
        self.sync.next_leader()
    }

    /// The leader of the view.
    pub fn leader_of_view(&self) -> (r: Replica)
        requires
            self@.sync.inv(),
        ensures
            r == self@.sync.leader_of_view(),
    {
        self.sync.leader_of_view()
    }
}

} // verus!
