//! The state of an Artemis node, and how each event changes it.

use crate::artemis::leaders::Draw;
use crate::artemis::types::{Action, Halt, Metric, ProtocolMsg, SignedBlock, UCRVote};
use crate::chain::block::{Header, Round, ViewNumber};
use crate::chain::storage::StorageState;
use crate::digest::Digest;
use crate::mempool::messages::BatcherConsensusMsg;
use crate::mempool::processor::HashedBatch;
use crate::mempool::tx::Replica;
use std::sync::Arc;
use vstd::prelude::*;

verus! {

/// What an Artemis node holds.
#[verifier::ext_equal]
pub struct State<Tx> {
    pub num_nodes: usize,
    pub num_faults: usize,
    pub myid: Replica,
    pub storage: StorageState<SignedBlock>,
    /// The vote of each round that is over.
    pub vote_chain: Map<Round, Arc<UCRVote>>,
    pub round_leader: Replica,
    pub draw: Draw,
    pub view_leader: Replica,
    pub view: ViewNumber,
    pub round: Round,
    pub last_seen: Arc<SignedBlock>,
    pub last_voted: Arc<SignedBlock>,
    pub req_ctr: u64,
    pub block_size: usize,
    /// How many transactions have committed since the throughput was sampled.
    pub committed_txs: u64,
    pub metrics_node: Replica,
    /// Every node but this one.
    pub peers: Seq<Replica>,
    pub payload: usize,
    /// How many seconds the throughput is sampled over.
    pub emit_window_secs: u64,
    /// Votes whose block is not here, by the hash of the block.
    pub vote_waiting: Map<Digest, Arc<UCRVote>>,
    /// Votes whose block is here, by their round.
    pub vote_ready: Map<Round, Arc<UCRVote>>,
    pub blocks: Seq<(Arc<SignedBlock>, HashedBatch<Tx>)>,
    pub responses: Seq<(Replica, Arc<SignedBlock>, HashedBatch<Tx>)>,
    pub other_buf: Seq<ProtocolMsg<Tx>>,
    /// The block that waits for each parent.
    pub parent_waiting: Map<Digest, Digest>,
    /// The blocks that wait for a parent.
    pub undelivered: Map<Digest, Arc<SignedBlock>>,
    /// Batches that wait to be put in a block.
    pub pending: Seq<HashedBatch<Tx>>,
    pub outbox: Seq<Action<Tx>>,
}

/// The settling of a chain of blocks that was handed out last one first: the oldest settles
/// first.
pub open spec fn settles<Tx>(chain: Seq<Arc<SignedBlock>>) -> Seq<Action<Tx>> {
    Seq::new(chain.len(), |i: int| Action::Settle(chain[chain.len() - 1 - i]))
}

impl<Tx> State<Tx> {
    /// What holds of every node: everybody is in the draw or out of it, there is a vote for
    /// each round that is over, and the block of each vote that is ready is here.
    pub open spec fn inv(self) -> bool {
        &&& self.num_nodes <= u16::MAX
        &&& self.draw.inv(self.num_nodes as nat)
        &&& self.round >= 1
        &&& self.storage.inv()
        &&& forall|r: Round| 1 <= r < self.round ==> #[trigger] self.vote_chain.contains_key(r)
        &&& self.vote_ready.dom().finite()
        &&& forall|r: Round| #[trigger]
            self.vote_ready.contains_key(r) ==> self.vote_ready[r].round == r
                && self.storage.delivered.contains_key(self.vote_ready[r].hash)
        &&& forall|h: Digest| #[trigger]
            self.vote_waiting.contains_key(h) ==> self.vote_waiting[h].hash == h
        &&& self.storage.delivered.contains_key(self.last_seen.blk.hash)
        &&& self.parent_waiting.dom().finite()
        &&& forall|h: Digest| #[trigger]
            self.parent_waiting.contains_key(h) ==> self.undelivered.contains_key(
                self.parent_waiting[h],
            ) || self.storage.delivered.contains_key(self.parent_waiting[h])
        &&& forall|h: Digest| #[trigger]
            self.undelivered.contains_key(h) ==> self.undelivered[h].blk.hash == h
    }

    /// The node with one more thing to do outside.
    pub open spec fn with_action(self, a: Action<Tx>) -> Self {
        State { outbox: self.outbox.push(a), ..self }
    }

    /// The node after it sent a message; it sends nothing to itself.
    pub open spec fn sent(self, to: Replica, msg: ProtocolMsg<Tx>) -> Self {
        if to == self.myid {
            self
        } else {
            self.with_action(Action::Send { to, msg })
        }
    }

    /// The node after it asked for a block.
    pub open spec fn asked(self, to: Replica, h: Digest) -> Self {
        self.sent(to, ProtocolMsg::Request(self.myid, self.req_ctr, h))
    }

    /// The node in the next round: a leader is drawn.
    pub open spec fn advanced(self) -> Result<Self, Halt> {
        if self.round == u64::MAX {
            Err(Halt::Overflow)
        } else {
            Ok(
                State {
                    round_leader: self.draw.next_leader(self.round),
                    draw: self.draw.drawn(self.round),
                    round: (self.round + 1) as Round,
                    ..self.with_action(Action::Record(Metric::RoundAdvance))
                }.with_action(Action::CollectHandlers),
            )
        }
    }

    /// The node this many rounds later, if nothing else happens.
    pub open spec fn rounds_on(self, k: nat) -> Result<Self, Halt>
        decreases k,
    {
        if k == 0 {
            Ok(self)
        } else {
            match self.rounds_on((k - 1) as nat) {
                Err(h) => Err(h),
                Ok(s) => s.advanced(),
            }
        }
    }

    /// The node after it told the batcher at which height the next block will be.
    pub open spec fn announced(self) -> Result<Self, Halt> {
        let height = self.last_seen.blk.header.height;
        if height == u64::MAX {
            Err(Halt::Overflow)
        } else {
            Ok(
                self.with_action(
                    Action::ToBatcher(
                        BatcherConsensusMsg::NewRound {
                            leader: self.view_leader,
                            round: (height + 1) as u64,
                        },
                    ),
                ),
            )
        }
    }

    /// The node after a block was put in storage; the highest block counts as the last seen.
    pub open spec fn stored(self, b: Arc<SignedBlock>) -> Self {
        State {
            storage: self.storage.deliver(b),
            last_seen: if self.last_seen.blk.header.height < b.blk.header.height {
                b
            } else {
                self.last_seen
            },
            undelivered: self.undelivered.remove(b.blk.hash),
            ..self
        }
    }

    /// The node after the vote that waited for a block became ready.
    pub open spec fn released(self, h: Digest) -> Self {
        if self.vote_waiting.contains_key(h) {
            let v = self.vote_waiting[h];
            State {
                vote_waiting: self.vote_waiting.remove(h),
                vote_ready: self.vote_ready.insert(v.round, v),
                ..self
            }
        } else {
            self
        }
    }

    /// The node after the block that waited for `h` was stored, then the one that waited for
    /// that one, and so on.
    pub open spec fn adopted(self, h: Digest) -> Self
        decreases self.parent_waiting.dom().len(),
    {
        if self.parent_waiting.contains_key(h) && self.parent_waiting.dom().finite() {
            let child = self.parent_waiting[h];
            let s = State { parent_waiting: self.parent_waiting.remove(h), ..self };
            let s = if s.undelivered.contains_key(child) {
                s.stored(s.undelivered[child])
            } else {
                s
            };
            s.released(child).adopted(child)
        } else {
            self
        }
    }

    /// The node after a block was delivered, with all that waited for it. If the chain grew,
    /// the batcher hears of it.
    pub open spec fn delivered(self, b: Arc<SignedBlock>) -> Result<Self, Halt> {
        let s = self.stored(b).released(b.blk.hash).adopted(b.blk.hash);
        if s.last_seen.blk.header.height > self.last_seen.blk.header.height {
            s.announced()
        } else {
            Ok(s)
        }
    }

    /// Whether a block is the view leader's.
    pub open spec fn is_view_leaders(self, b: Arc<SignedBlock>) -> bool {
        &&& b.blk.header.author == self.view_leader
        &&& b.origin == self.view_leader
        &&& (self.view_leader == self.myid || b.signer == Some(self.view_leader))
    }

    /// The node after a block came from the view leader. One that is here already is passed
    /// over, and so is one whose parent is missing or that is not the view leader's.
    pub open spec fn received_block(self, b: Arc<SignedBlock>) -> Result<Self, Halt> {
        if self.storage.delivered.contains_key(b.blk.hash) || !self.storage.delivered.contains_key(
            b.blk.header.prev,
        ) || !self.is_view_leaders(b) {
            Ok(self)
        } else {
            self.delivered(b)
        }
    }

    /// The node after a block that it had asked for came. If the parent is missing the block
    /// waits, and the node that sent it is asked for the parent.
    pub open spec fn updated_delivery(self, b: Arc<SignedBlock>, from: Replica) -> Result<
        Self,
        Halt,
    > {
        let h = b.blk.hash;
        let parent = b.blk.header.prev;
        if self.storage.delivered.contains_key(h) || self.parent_waiting.contains_key(parent) {
            Ok(self)
        } else if !self.storage.delivered.contains_key(parent) {
            Ok(
                State {
                    parent_waiting: self.parent_waiting.insert(parent, h),
                    undelivered: self.undelivered.insert(h, b),
                    ..self
                }.asked(from, parent),
            )
        } else {
            self.delivered(b)
        }
    }

    /// The node after it committed what is old enough: the block that was voted for
    /// `num_faults` rounds back, and all its ancestors.
    pub open spec fn committed(self) -> Result<Self, Halt> {
        let v = self.vote_chain[(self.round - self.num_faults) as Round];
        match self.storage.commits(v.hash) {
            None => Err(Halt::BrokenChain),
            Some(chain) => {
                let txs = chain.len() * self.block_size;
                if txs > u64::MAX {
                    Err(Halt::Overflow)
                } else {
                    let n = self.committed_txs + txs;
                    Ok(
                        State {
                            storage: self.storage.commit_all(chain),
                            committed_txs: if n > u64::MAX {
                                u64::MAX
                            } else {
                                n as u64
                            },
                            outbox: self.outbox + settles(chain),
                            ..self
                        },
                    )
                }
            },
        }
    }

    /// Whether a vote for this round is the round leader's. A leader does not look at the
    /// signature on its own vote.
    pub open spec fn is_round_leaders(self, v: Arc<UCRVote>) -> bool {
        v.view == self.view && (self.myid == self.round_leader || v.signer == Some(
            self.round_leader,
        ))
    }

    /// The node after it took the vote of its round: what is old enough commits, the next
    /// leader hears of the vote, and the next round begins.
    pub open spec fn voted(self, v: Arc<UCRVote>) -> Result<Self, Halt> {
        if !self.is_round_leaders(v) {
            Ok(self)
        } else {
            let s = State { vote_chain: self.vote_chain.insert(v.round, v), ..self };
            match if s.round > s.num_faults {
                s.committed()
            } else {
                Ok(s)
            } {
                Err(halt) => Err(halt),
                Ok(s) => if s.round == u64::MAX {
                    Err(Halt::Overflow)
                } else {
                    State { last_voted: s.storage.delivered[v.hash], ..s }.sent(
                        s.draw.next_leader(s.round),
                        ProtocolMsg::Relay(s.myid, v),
                    ).advanced()
                },
            }
        }
    }

    /// The node after a vote came. One from the past is passed over; one for later, or one
    /// whose block is missing, is kept, and a missing block is asked for.
    pub open spec fn received_vote(self, from: Replica, v: Arc<UCRVote>) -> Result<Self, Halt> {
        if v.round < self.round {
            Ok(self)
        } else if !self.storage.delivered.contains_key(v.hash) {
            let s = self.asked(from, v.hash);
            Ok(State { vote_waiting: s.vote_waiting.insert(v.hash, v), ..s })
        } else if v.round > self.round {
            Ok(State { vote_ready: self.vote_ready.insert(v.round, v), ..self })
        } else {
            self.voted(v)
        }
    }

    /// The node after it took the votes that were ready for the round it has come to, as long
    /// as there are any.
    pub open spec fn caught_up(self) -> Result<Self, Halt>
        decreases self.vote_ready.dom().len(),
    {
        if self.vote_ready.contains_key(self.round) && self.vote_ready.dom().finite() {
            let v = self.vote_ready[self.round];
            let s = State { vote_ready: self.vote_ready.remove(self.round), ..self };
            proof {
                lemma_voted_keeps(s, v);
            }
            match s.voted(v) {
                Err(halt) => Err(halt),
                Ok(t) => t.caught_up(),
            }
        } else {
            Ok(self)
        }
    }

    /// The node after these blocks of the view leader in turn. A batch that is not the one its
    /// block refers to is passed over with the block; any other batch is kept.
    pub open spec fn took_blocks(self, items: Seq<(Arc<SignedBlock>, HashedBatch<Tx>)>) -> Result<
        Self,
        Halt,
    >
        decreases items.len(),
    {
        if items.len() == 0 {
            Ok(self)
        } else {
            match self.took_blocks(items.drop_last()) {
                Err(halt) => Err(halt),
                Ok(s) => {
                    let (b, batch) = items.last();
                    if batch.hash != b.blk.batch_hash {
                        Ok(s)
                    } else {
                        s.with_action(Action::Persist(batch)).received_block(b)
                    }
                },
            }
        }
    }

    /// The node after these answers in turn.
    pub open spec fn took_responses(
        self,
        items: Seq<(Replica, Arc<SignedBlock>, HashedBatch<Tx>)>,
    ) -> Result<Self, Halt>
        decreases items.len(),
    {
        if items.len() == 0 {
            Ok(self)
        } else {
            match self.took_responses(items.drop_last()) {
                Err(halt) => Err(halt),
                Ok(s) => {
                    let (from, b, batch) = items.last();
                    if batch.hash != b.blk.batch_hash {
                        Ok(s)
                    } else {
                        s.with_action(Action::Persist(batch)).updated_delivery(b, from)
                    }
                },
            }
        }
    }

    /// The node after it was asked for a block. It answers if it has the block, delivered or
    /// not.
    pub open spec fn requested(self, from: Replica, req_id: u64, h: Digest) -> Self {
        if self.storage.delivered.contains_key(h) {
            self.with_action(
                Action::Serve { to: from, req_id, block: self.storage.delivered[h] },
            )
        } else if self.undelivered.contains_key(h) {
            self.with_action(Action::Serve { to: from, req_id, block: self.undelivered[h] })
        } else {
            self
        }
    }

    /// The node after one other message.
    pub open spec fn heard_one(self, msg: ProtocolMsg<Tx>) -> Result<Self, Halt> {
        match msg {
            ProtocolMsg::UCRVote(v) => self.received_vote(v.origin, v),
            ProtocolMsg::Relay(from, v) => self.received_vote(from, v),
            ProtocolMsg::Request(from, req_id, h) => Ok(self.requested(from, req_id, h)),
            ProtocolMsg::Blame(b) => Ok(self.with_action(Action::Blame(b))),
            _ => Ok(self),
        }
    }

    /// The node after these other messages in turn.
    pub open spec fn heard(self, msgs: Seq<ProtocolMsg<Tx>>) -> Result<Self, Halt>
        decreases msgs.len(),
    {
        if msgs.len() == 0 {
            Ok(self)
        } else {
            match self.heard(msgs.drop_last()) {
                Err(halt) => Err(halt),
                Ok(s) => s.heard_one(msgs.last()),
            }
        }
    }

    /// The node after it handled everything that was buffered: blocks of the view leader
    /// first, then answers, then the votes that are ready, then the rest, and then the votes
    /// that are ready by now.
    pub open spec fn processed(self) -> Result<Self, Halt> {
        let s = State {
            blocks: Seq::empty(),
            responses: Seq::empty(),
            other_buf: Seq::empty(),
            ..self
        };
        match s.took_blocks(self.blocks) {
            Err(halt) => Err(halt),
            Ok(s) => match s.took_responses(self.responses) {
                Err(halt) => Err(halt),
                Ok(s) => match s.caught_up() {
                    Err(halt) => Err(halt),
                    Ok(s) => match s.heard(self.other_buf) {
                        Err(halt) => Err(halt),
                        Ok(s) => s.caught_up(),
                    },
                },
            },
        }
    }

    /// The node with one more message in its buffers.
    pub open spec fn buffered(self, msg: ProtocolMsg<Tx>) -> Self {
        match msg {
            ProtocolMsg::Invalid => self,
            ProtocolMsg::NewBlock(b, batch) => State {
                blocks: self.blocks.push((b, batch)),
                ..self
            },
            ProtocolMsg::Response(from, _, b, batch) => State {
                responses: self.responses.push((from, b, batch)),
                ..self
            },
            other => State { other_buf: self.other_buf.push(other), ..self },
        }
    }

    /// The header of the block that this node would propose.
    pub open spec fn next_header(self) -> Header
        recommends
            self.last_seen.blk.header.height < u64::MAX,
    {
        Header {
            prev: self.last_seen.blk.hash,
            author: self.myid,
            height: (self.last_seen.blk.header.height + 1) as u64,
        }
    }

    /// The node after it put a batch in a block: every node hears of it, the batcher does, and
    /// the node takes its own block.
    pub open spec fn proposed(self, b: Arc<SignedBlock>, batch: HashedBatch<Tx>) -> Result<
        Self,
        Halt,
    > {
        self.with_action(Action::Record(Metric::Propose)).with_action(
            Action::Multicast(ProtocolMsg::NewBlock(b, batch)),
        ).with_action(
            Action::ToBatcher(
                BatcherConsensusMsg::Proposed { batch: batch.batch, round: b.blk.header.height },
            ),
        ).received_block(b)
    }

    /// Whether this node is to vote: it leads the round and has seen a block beyond the last
    /// one voted for.
    pub open spec fn votes(self) -> bool {
        self.myid == self.round_leader && self.last_seen.blk.header.height
            > self.last_voted.blk.header.height
    }

    /// The node after it voted: every node hears of the vote, and the node takes it.
    pub open spec fn cast(self, v: Arc<UCRVote>) -> Result<Self, Halt> {
        self.with_action(Action::Record(Metric::Vote)).with_action(
            Action::Multicast(ProtocolMsg::UCRVote(v)),
        ).voted(v)
    }
}

/// One more thing to do outside keeps the invariant.
pub proof fn lemma_with_action_inv<Tx>(s: State<Tx>, a: Action<Tx>)
    requires
        s.inv(),
    ensures
        s.with_action(a).inv(),
{
}

/// Taking a vote leaves alone what waits, and keeps what was delivered.
pub proof fn lemma_voted_keeps<Tx>(s: State<Tx>, v: Arc<UCRVote>)
    ensures
        s.voted(v) matches Ok(t) ==> {
            &&& t.vote_ready == s.vote_ready
            &&& t.vote_waiting == s.vote_waiting
            &&& t.storage.delivered == s.storage.delivered
            &&& t.round >= s.round
        },
{
}

/// Taking the vote of the round keeps the invariant.
pub proof fn lemma_voted_inv<Tx>(s: State<Tx>, v: Arc<UCRVote>)
    requires
        s.inv(),
        v.round == s.round,
    ensures
        s.voted(v) matches Ok(t) ==> t.inv(),
{
    if s.voted(v) is Ok && s.is_round_leaders(v) {
        let t = s.voted(v)->Ok_0;
        crate::artemis::leaders::law_draw_keeps_everybody(s.draw, s.round, s.num_nodes as nat);
        assert(t.draw == s.draw.drawn(s.round));
        assert forall|r: Round| 1 <= r < t.round implies #[trigger] t.vote_chain.contains_key(r) by {
            if r < s.round {
                assert(s.vote_chain.contains_key(r));
            }
        }
    }
}

/// Storing a block keeps the invariant.
pub proof fn lemma_stored_inv<Tx>(s: State<Tx>, b: Arc<SignedBlock>)
    requires
        s.inv(),
    ensures
        s.stored(b).inv(),
{
}

/// Releasing a vote whose block is here keeps the invariant.
pub proof fn lemma_released_inv<Tx>(s: State<Tx>, h: Digest)
    requires
        s.inv(),
        s.storage.delivered.contains_key(h),
    ensures
        s.released(h).inv(),
{
}

/// Storing what waited for a block keeps the invariant.
pub proof fn lemma_adopted_inv<Tx>(s: State<Tx>, h: Digest)
    requires
        s.inv(),
    ensures
        s.adopted(h).inv(),
        s.adopted(h).storage.committed == s.storage.committed,
        s.adopted(h).round == s.round,
        s.adopted(h).vote_chain == s.vote_chain,
        s.adopted(h).num_faults == s.num_faults,
        s.adopted(h).last_seen.blk.header.height >= s.last_seen.blk.header.height,
    decreases s.parent_waiting.dom().len(),
{
    if s.parent_waiting.contains_key(h) {
        let child = s.parent_waiting[h];
        let t = State { parent_waiting: s.parent_waiting.remove(h), ..s };
        assert(t.inv());
        let u = if t.undelivered.contains_key(child) {
            lemma_stored_inv(t, t.undelivered[child]);
            t.stored(t.undelivered[child])
        } else {
            t
        };
        lemma_released_inv(u, child);
        lemma_adopted_inv(u.released(child), child);
    }
}

/// Delivering a block keeps the invariant.
pub proof fn lemma_delivered_inv<Tx>(s: State<Tx>, b: Arc<SignedBlock>)
    requires
        s.inv(),
    ensures
        s.delivered(b) matches Ok(t) ==> t.inv() && t.storage.committed == s.storage.committed
            && t.round == s.round && t.vote_chain == s.vote_chain && t.num_faults == s.num_faults,
{
    lemma_stored_inv(s, b);
    lemma_released_inv(s.stored(b), b.blk.hash);
    lemma_adopted_inv(s.stored(b).released(b.blk.hash), b.blk.hash);
}

/// A vote that came keeps the invariant.
pub proof fn lemma_received_vote_inv<Tx>(s: State<Tx>, from: Replica, v: Arc<UCRVote>)
    requires
        s.inv(),
    ensures
        s.received_vote(from, v) matches Ok(t) ==> t.inv(),
{
    if v.round == s.round {
        lemma_voted_inv(s, v);
    }
}

} // verus!
