//! The state of an Apollo node, and how each event changes it.

use crate::apollo::types::{Action, Halt, Propose, ProtocolMsg};
use crate::chain::block::{Block, Header, Round};
use crate::chain::storage::StorageState;
use crate::digest::Digest;
use crate::mempool::messages::BatcherConsensusMsg;
use crate::mempool::processor::HashedBatch;
use crate::mempool::tx::{ClientId, Replica};
use std::sync::Arc;
use vstd::prelude::*;

verus! {

/// A proposal that came with its block and batch, and the node to ask for more.
pub struct Arrival<Tx> {
    pub from: Replica,
    pub prop: Arc<Propose>,
    pub block: Arc<Block>,
    pub batch: HashedBatch<Tx>,
}

/// What an Apollo node holds.
#[verifier::ext_equal]
pub struct State<Tx> {
    pub num_nodes: usize,
    pub num_faults: usize,
    pub myid: Replica,
    /// Whether clients are told of proposals, not only of commits.
    pub client_apollo: bool,
    pub round: Round,
    pub leader: Replica,
    pub storage: StorageState<Block>,
    /// The proposal that was accepted in each round.
    pub by_round: Map<Round, Arc<Propose>>,
    /// The accepted proposals, by the hash of the block.
    pub by_hash: Map<Digest, Arc<Propose>>,
    pub last_seen: Arc<Block>,
    /// Proposals that came with their block.
    pub prop_buf: Seq<Arrival<Tx>>,
    /// Proposals that came without a block, and from whom.
    pub relay_buf: Seq<(Replica, Arc<Propose>)>,
    pub other_buf: Seq<ProtocolMsg<Tx>>,
    /// Proposals for later rounds.
    pub future: Map<Round, (Replica, Arc<Propose>)>,
    /// Proposals whose block was asked for, by the hash of the block.
    pub waiting: Map<Digest, Arc<Propose>>,
    /// Proposals whose block lacks its parent, by the hash of the parent.
    pub waiting_parent: Map<Digest, Arc<Propose>>,
    pub req_ctr: u64,
    /// Batches that wait for this node to lead.
    pub pending: Seq<HashedBatch<Tx>>,
    /// How many transactions have committed since the throughput was sampled.
    pub committed_txs: u64,
    pub metrics_node: Replica,
    /// Every node but this one.
    pub peers: Seq<Replica>,
    pub clients: Seq<ClientId>,
    pub payload: usize,
    pub block_size: usize,
    /// How many seconds the throughput is sampled over.
    pub emit_window_secs: u64,
    pub outbox: Seq<Action<Tx>>,
}

/// The settling of a chain of blocks that was handed out last one first: the oldest settles
/// first.
pub open spec fn settles<Tx>(chain: Seq<Arc<Block>>) -> Seq<Action<Tx>> {
    Seq::new(chain.len(), |i: int| Action::Settle(chain[chain.len() - 1 - i]))
}

/// The leader that comes after `prev` among this many nodes: they take turns.
pub open spec fn next_after(num_nodes: usize, prev: Replica) -> Replica {
    if prev + 1 == num_nodes {
        0
    } else {
        (prev + 1) as Replica
    }
}

/// The leader `k` rounds after `r` leads, among this many nodes.
pub open spec fn turn(num_nodes: usize, r: Replica, k: nat) -> Replica
    decreases k,
{
    if k == 0 {
        r
    } else {
        next_after(num_nodes, turn(num_nodes, r, (k - 1) as nat))
    }
}

impl<Tx> State<Tx> {
    /// What holds of every node: it knows who leads, it has accepted a proposal in each round
    /// that is over, a proposal that waits for a parent has its own block, and a proposal for
    /// later is filed under its round.
    pub open spec fn inv(self) -> bool {
        &&& 0 < self.num_nodes <= u16::MAX
        &&& self.leader < self.num_nodes
        &&& self.round >= 1
        &&& self.storage.inv()
        &&& forall|r: Round| 1 <= r < self.round ==> #[trigger] self.by_round.contains_key(r)
        &&& self.waiting_parent.dom().finite()
        &&& forall|h: Digest| #[trigger]
            self.waiting_parent.contains_key(h) ==> self.storage.delivered.contains_key(
                self.waiting_parent[h].block_hash,
            )
        &&& self.future.dom().finite()
        &&& forall|r: Round| #[trigger]
            self.future.contains_key(r) ==> self.future[r].1.round == r
    }

    /// The node with one more thing to do outside.
    pub open spec fn with_action(self, a: Action<Tx>) -> Self {
        State { outbox: self.outbox.push(a), ..self }
    }

    /// The node after it sent a message; it sends nothing to itself.
    pub open spec fn sent(self, to: Replica, msg: ProtocolMsg<Tx>) -> Self {
        if to == self.myid {
            self
        } else {
            self.with_action(Action::Send { to, msg })
        }
    }

    /// The leader that comes after `prev`: they take turns.
    pub open spec fn next_of(self, prev: Replica) -> Replica {
        next_after(self.num_nodes, prev)
    }

    /// The node after it told the batcher which round it is and who leads.
    pub open spec fn announced(self) -> Self {
        self.with_action(
            Action::ToBatcher(
                BatcherConsensusMsg::NewRound { leader: self.leader, round: self.round },
            ),
        )
    }

    /// The node in the next round, which the batcher hears of.
    pub open spec fn advanced(self) -> Result<Self, Halt> {
        if self.round == u64::MAX {
            Err(Halt::Overflow)
        } else {
            Ok(
                State {
                    leader: self.next_of(self.leader),
                    round: (self.round + 1) as Round,
                    ..self
                }.with_action(Action::CollectHandlers).announced(),
            )
        }
    }

    /// The node after it committed what is old enough: the block of the proposal that is
    /// `num_faults` rounds back, and all its ancestors.
    pub open spec fn committed(self) -> Result<Self, Halt> {
        let p = self.by_round[(self.round - self.num_faults) as Round];
        match self.storage.commits(p.block_hash) {
            None => Err(Halt::BrokenChain),
            Some(chain) => Ok(
                State {
                    storage: self.storage.commit_all(chain),
                    outbox: self.outbox + settles(chain),
                    ..self
                },
            ),
        }
    }

    /// Whether the author of a block has another block at the same height.
    pub open spec fn equivocates(self, b: Block) -> bool {
        &&& self.storage.by_height.contains_key(b.header.height)
        &&& self.storage.by_height[b.header.height].hash != b.hash
        &&& self.storage.by_height[b.header.height].header.author == b.header.author
    }

    /// The node after it noted the proposal of the round.
    pub open spec fn noted(self, p: Arc<Propose>) -> Self {
        State {
            by_hash: self.by_hash.insert(p.block_hash, p),
            by_round: self.by_round.insert(p.round, p),
            ..self
        }
    }

    /// The node after it accepted a proposal for its round: the next leader hears of it first,
    /// then the batcher, then what is old enough commits, and then the next round begins. A
    /// block of an equivocating author is passed over.
    pub open spec fn accepted(self, p: Arc<Propose>, b: Arc<Block>) -> Result<Self, Halt> {
        if self.equivocates(*b) {
            Ok(self)
        } else {
            let s = self.sent(
                self.next_of(self.leader),
                ProtocolMsg::Relay(self.myid, p),
            ).noted(p).with_action(Action::Admit { block: b, round: p.round });
            match if s.round > s.num_faults {
                s.committed()
            } else {
                Ok(s)
            } {
                Err(h) => Err(h),
                Ok(s) => State { last_seen: b, ..s }.advanced(),
            }
        }
    }

    /// Whether a proposal for this round is the leader's.
    pub open spec fn is_leaders(self, p: Propose, b: Block) -> bool {
        &&& b.hash == p.block_hash
        &&& p.origin == self.leader
        &&& b.header.author == self.leader
        &&& (p.origin == self.myid || p.signed)
    }

    /// The node after it looked at a proposal whose block and parent are here. One from the
    /// past is passed over, one for later is kept, and one that is not the leader's is passed
    /// over.
    pub open spec fn received(self, p: Arc<Propose>, b: Arc<Block>, from: Replica) -> Result<
        Self,
        Halt,
    > {
        if p.round < self.round {
            Ok(self)
        } else if p.round > self.round {
            Ok(State { future: self.future.insert(p.round, (from, p)), ..self })
        } else if !self.is_leaders(*p, *b) {
            Ok(self)
        } else {
            self.accepted(p, b)
        }
    }

    /// The node after a block with hash `h` came: the proposal that waited for it is looked at,
    /// then the one that waited for that one's block, and so on.
    pub open spec fn unblocked(self, from: Replica, h: Digest) -> Result<Self, Halt>
        decreases self.waiting_parent.dom().len(),
    {
        if self.waiting_parent.contains_key(h) && self.waiting_parent.dom().finite() {
            let p = self.waiting_parent[h];
            let s = State { waiting_parent: self.waiting_parent.remove(h), ..self };
            proof {
                lemma_received_keeps(s, p, s.storage.delivered[p.block_hash], from);
            }
            match s.received(p, s.storage.delivered[p.block_hash], from) {
                Err(halt) => Err(halt),
                Ok(t) => t.unblocked(from, p.block_hash),
            }
        } else {
            Ok(self)
        }
    }

    /// The node after it asked for a block.
    pub open spec fn asked(self, to: Replica, h: Digest) -> Self {
        self.sent(to, ProtocolMsg::Request(self.myid, self.req_ctr, h))
    }

    /// The node after it delivered the block of a proposal. If the parent is missing it is
    /// asked for, and the proposal waits.
    pub open spec fn delivered(self, from: Replica, p: Arc<Propose>, b: Arc<Block>) -> Result<
        Self,
        Halt,
    > {
        let parent = b.header.prev;
        let s = State { storage: self.storage.deliver(b), ..self };
        if !self.storage.delivered.contains_key(parent) {
            Ok(
                State { waiting_parent: s.waiting_parent.insert(parent, p), ..s }.asked(
                    from,
                    parent,
                ),
            )
        } else {
            match s.received(p, b, from) {
                Err(halt) => Err(halt),
                Ok(t) => State { waiting: t.waiting.remove(p.block_hash), ..t }.unblocked(
                    from,
                    p.block_hash,
                ),
            }
        }
    }

    /// The node after it looked at a proposal that came with its block and batch. The hashes
    /// must agree; the batch is then kept.
    pub open spec fn checked_with_block(
        self,
        from: Replica,
        p: Arc<Propose>,
        b: Arc<Block>,
        batch: HashedBatch<Tx>,
    ) -> Result<Self, Halt> {
        if self.by_round.contains_key(p.round) || b.hash != p.block_hash || batch.hash
            != b.batch_hash {
            Ok(self)
        } else {
            self.with_action(Action::Persist(batch)).delivered(from, p, b)
        }
    }

    /// The node after it looked at a proposal that came without its block. A block that is not
    /// here is asked for.
    pub open spec fn checked(self, from: Replica, p: Arc<Propose>) -> Result<Self, Halt> {
        if self.by_round.contains_key(p.round) {
            Ok(self)
        } else if self.storage.delivered.contains_key(p.block_hash) {
            self.delivered(from, p, self.storage.delivered[p.block_hash])
        } else {
            Ok(
                State { waiting: self.waiting.insert(p.block_hash, p), ..self }.asked(
                    from,
                    p.block_hash,
                ),
            )
        }
    }

    /// The node after it looked at these proposals in turn.
    pub open spec fn checked_arrivals(self, items: Seq<Arrival<Tx>>) -> Result<Self, Halt>
        decreases items.len(),
    {
        if items.len() == 0 {
            Ok(self)
        } else {
            match self.checked_arrivals(items.drop_last()) {
                Err(halt) => Err(halt),
                Ok(s) => {
                    let a = items.last();
                    s.checked_with_block(a.from, a.prop, a.block, a.batch)
                },
            }
        }
    }

    /// The node after it looked at these relayed proposals in turn.
    pub open spec fn checked_relays(self, items: Seq<(Replica, Arc<Propose>)>) -> Result<Self, Halt>
        decreases items.len(),
    {
        if items.len() == 0 {
            Ok(self)
        } else {
            match self.checked_relays(items.drop_last()) {
                Err(halt) => Err(halt),
                Ok(s) => s.checked(items.last().0, items.last().1),
            }
        }
    }

    /// The node after it was asked for a block. It answers if it has accepted the proposal of
    /// the block and has the block.
    pub open spec fn requested(self, from: Replica, req_id: u64, h: Digest) -> Self {
        if self.by_hash.contains_key(h) && self.storage.delivered.contains_key(h) {
            self.with_action(
                Action::Serve {
                    to: from,
                    req_id,
                    prop: self.by_hash[h],
                    block: self.storage.delivered[h],
                },
            )
        } else {
            self
        }
    }

    /// The node after these other messages in turn.
    pub open spec fn heard(self, msgs: Seq<ProtocolMsg<Tx>>) -> Self
        decreases msgs.len(),
    {
        if msgs.len() == 0 {
            self
        } else {
            let s = self.heard(msgs.drop_last());
            match msgs.last() {
                ProtocolMsg::Request(from, req_id, h) => s.requested(from, req_id, h),
                ProtocolMsg::Blame(b) => s.with_action(Action::Blame(b)),
                _ => s,
            }
        }
    }

    /// The node after it looked at the proposals that were kept for the round it has come to,
    /// as long as there are any.
    pub open spec fn caught_up(self) -> Result<Self, Halt>
        decreases
            self.future.dom().len() + self.waiting_parent.dom().len(),
            self.future.dom().len(),
        when self.inv()
    {
        if self.future.contains_key(self.round) {
            let (from, p) = self.future[self.round];
            let s = State { future: self.future.remove(self.round), ..self };
            proof {
                lemma_checked_inv(s, from, p);
                lemma_checked_measure(s, from, p);
            }
            match s.checked(from, p) {
                Err(halt) => Err(halt),
                Ok(t) => t.caught_up(),
            }
        } else {
            Ok(self)
        }
    }

    /// The node after it handled everything that was buffered: proposals with their blocks
    /// first, then relays, then the rest, and then what was kept for the round.
    pub open spec fn processed(self) -> Result<Self, Halt> {
        let s = State {
            prop_buf: Seq::empty(),
            relay_buf: Seq::empty(),
            other_buf: Seq::empty(),
            ..self
        };
        match s.checked_arrivals(self.prop_buf) {
            Err(halt) => Err(halt),
            Ok(s) => match s.checked_relays(self.relay_buf) {
                Err(halt) => Err(halt),
                Ok(s) => s.heard(self.other_buf).caught_up(),
            },
        }
    }

    /// The node with one more message in its buffers.
    pub open spec fn buffered(self, msg: ProtocolMsg<Tx>) -> Self {
        match msg {
            ProtocolMsg::NewProposal(p, b, batch) => State {
                prop_buf: self.prop_buf.push(
                    Arrival { from: p.origin, prop: p, block: b, batch },
                ),
                ..self
            },
            ProtocolMsg::Response(from, _, p, b, batch) => State {
                prop_buf: self.prop_buf.push(Arrival { from, prop: p, block: b, batch }),
                ..self
            },
            ProtocolMsg::Relay(from, p) => State {
                relay_buf: self.relay_buf.push((from, p)),
                ..self
            },
            other => State { other_buf: self.other_buf.push(other), ..self },
        }
    }

    /// The header of the block that this node would propose.
    pub open spec fn next_header(self) -> Header
        recommends
            self.last_seen.header.height < u64::MAX,
    {
        Header {
            prev: self.last_seen.hash,
            author: self.myid,
            height: (self.last_seen.header.height + 1) as u64,
        }
    }

    /// The node after it proposed a block: every node hears of it, the clients do if they are
    /// to, and the node accepts its own proposal.
    pub open spec fn proposed(
        self,
        p: Arc<Propose>,
        b: Arc<Block>,
        batch: HashedBatch<Tx>,
        tx_hashes: Arc<Vec<Digest>>,
    ) -> Result<Self, Halt> {
        let s = self.with_action(Action::Multicast(ProtocolMsg::NewProposal(p, b, batch)));
        let s = if self.client_apollo {
            s.with_action(Action::NotifyClients { prop: p, block: b, tx_hashes })
        } else {
            s
        };
        State { storage: s.storage.deliver(b), ..s }.accepted(p, b)
    }
}

/// Accepting a proposal leaves alone what waits, and keeps what was delivered.
pub proof fn lemma_accepted_keeps<Tx>(s: State<Tx>, p: Arc<Propose>, b: Arc<Block>)
    ensures
        s.accepted(p, b) matches Ok(t) ==> {
            &&& t.waiting_parent == s.waiting_parent
            &&& t.waiting == s.waiting
            &&& t.future == s.future
            &&& t.storage.delivered == s.storage.delivered
            &&& t.num_nodes == s.num_nodes
            &&& t.round >= s.round
        },
{
}

/// Looking at a proposal leaves the proposals that wait for a parent alone.
pub proof fn lemma_received_keeps<Tx>(
    s: State<Tx>,
    p: Arc<Propose>,
    b: Arc<Block>,
    from: Replica,
)
    ensures
        s.received(p, b, from) matches Ok(t) ==> {
            &&& t.waiting_parent == s.waiting_parent
            &&& t.storage.delivered == s.storage.delivered
            &&& t.round >= s.round
            &&& t.future == s.future || t.future == s.future.insert(p.round, (from, p))
            &&& p.round == s.round ==> t.future == s.future
        },
{
    lemma_accepted_keeps(s, p, b);
}

/// Accepting a proposal of the round keeps the invariant.
pub proof fn lemma_accepted_inv<Tx>(s: State<Tx>, p: Arc<Propose>, b: Arc<Block>)
    requires
        s.inv(),
        p.round == s.round,
    ensures
        s.accepted(p, b) matches Ok(t) ==> t.inv(),
{
    if s.accepted(p, b) is Ok {
        let t = s.accepted(p, b)->Ok_0;
        lemma_accepted_keeps(s, p, b);
        if !s.equivocates(*b) {
            assert forall|r: Round| 1 <= r < t.round implies #[trigger] t.by_round.contains_key(
                r,
            ) by {
                if r < s.round {
                    assert(s.by_round.contains_key(r));
                }
            }
        }
    }
}

/// Looking at a proposal keeps the invariant.
pub proof fn lemma_received_inv<Tx>(s: State<Tx>, p: Arc<Propose>, b: Arc<Block>, from: Replica)
    requires
        s.inv(),
    ensures
        s.received(p, b, from) matches Ok(t) ==> t.inv(),
{
    if p.round == s.round {
        lemma_accepted_inv(s, p, b);
    }
}

/// Following up on a block keeps the invariant, and files no more than what it takes out.
pub proof fn lemma_unblocked<Tx>(s: State<Tx>, from: Replica, h: Digest)
    requires
        s.inv(),
    ensures
        s.unblocked(from, h) matches Ok(t) ==> {
            &&& t.inv()
            &&& t.future.dom().len() + t.waiting_parent.dom().len() <= s.future.dom().len()
                + s.waiting_parent.dom().len()
            &&& t.round >= s.round
        },
    decreases s.waiting_parent.dom().len(),
{
    if s.waiting_parent.contains_key(h) {
        let p = s.waiting_parent[h];
        let u = State { waiting_parent: s.waiting_parent.remove(h), ..s };
        let b = u.storage.delivered[p.block_hash];
        lemma_received_keeps(u, p, b, from);
        lemma_received_inv(u, p, b, from);
        if u.received(p, b, from) is Ok {
            let v = u.received(p, b, from)->Ok_0;
            lemma_unblocked(v, from, p.block_hash);
        }
    }
}

/// Delivering the block of a proposal keeps the invariant.
pub proof fn lemma_delivered_inv<Tx>(
    s: State<Tx>,
    from: Replica,
    p: Arc<Propose>,
    b: Arc<Block>,
)
    requires
        s.inv(),
        b.hash == p.block_hash,
    ensures
        s.delivered(from, p, b) matches Ok(t) ==> t.inv() && t.round >= s.round,
{
    let u = State { storage: s.storage.deliver(b), ..s };
    assert(u.inv());
    if s.storage.delivered.contains_key(b.header.prev) {
        lemma_received_inv(u, p, b, from);
        lemma_received_keeps(u, p, b, from);
        if u.received(p, b, from) is Ok {
            let v = u.received(p, b, from)->Ok_0;
            lemma_unblocked(
                State { waiting: v.waiting.remove(p.block_hash), ..v },
                from,
                p.block_hash,
            );
        }
    }
}

/// Looking at a proposal without its block keeps the invariant.
pub proof fn lemma_checked_inv<Tx>(s: State<Tx>, from: Replica, p: Arc<Propose>)
    requires
        s.inv(),
    ensures
        s.checked(from, p) matches Ok(t) ==> t.inv() && t.round >= s.round,
{
    if s.storage.delivered.contains_key(p.block_hash) {
        lemma_delivered_inv(s, from, p, s.storage.delivered[p.block_hash]);
    }
}

/// Looking at a proposal with its block keeps the invariant.
pub proof fn lemma_checked_with_block_inv<Tx>(
    s: State<Tx>,
    from: Replica,
    p: Arc<Propose>,
    b: Arc<Block>,
    batch: HashedBatch<Tx>,
)
    requires
        s.inv(),
    ensures
        s.checked_with_block(from, p, b, batch) matches Ok(t) ==> t.inv() && t.round >= s.round,
{
    if b.hash == p.block_hash {
        lemma_delivered_inv(s.with_action(Action::Persist(batch)), from, p, b);
    }
}

/// A proposal of the round files at most itself, and then among those that wait for a parent.
pub proof fn lemma_checked_measure<Tx>(s: State<Tx>, from: Replica, p: Arc<Propose>)
    requires
        s.inv(),
        p.round == s.round,
    ensures
        s.checked(from, p) matches Ok(t) ==> {
            ||| t.future.dom().len() + t.waiting_parent.dom().len() <= s.future.dom().len()
                + s.waiting_parent.dom().len()
            ||| t.future == s.future && t.waiting_parent.dom().len()
                <= s.waiting_parent.dom().len() + 1
        },
{
    if !s.by_round.contains_key(p.round) && s.storage.delivered.contains_key(p.block_hash) {
        let b = s.storage.delivered[p.block_hash];
        let u = State { storage: s.storage.deliver(b), ..s };
        if s.storage.delivered.contains_key(b.header.prev) {
            lemma_received_inv(u, p, b, from);
            lemma_received_keeps(u, p, b, from);
            if u.received(p, b, from) is Ok {
                let v = u.received(p, b, from)->Ok_0;
                lemma_unblocked(
                    State { waiting: v.waiting.remove(p.block_hash), ..v },
                    from,
                    p.block_hash,
                );
            }
        }
    }
}

} // verus!
