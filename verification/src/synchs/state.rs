//! The state of a Sync HotStuff node, and how each event changes it.

use crate::chain::block::{ChainBlock, Header, Height, ViewNumber};
use crate::chain::storage::{law_delivered_can_commit, StorageState};
use crate::digest::Digest;
use crate::mempool::processor::HashedBatch;
use crate::mempool::tx::{ClientId, Replica};
use crate::synchs::queue::without;
use crate::synchs::types::{
    empty_hash, Action, Block, CertType, Certificate, Halt, Propose, ProtocolMsg, Vote,
};
use std::sync::Arc;
use vstd::prelude::*;

verus! {

/// What a Sync HotStuff node holds.
#[verifier::ext_equal]
pub struct State<Tx> {
    pub num_nodes: usize,
    pub num_faults: usize,
    pub myid: Replica,
    /// The nodes whose key is known.
    pub keys: Set<Replica>,
    pub storage: StorageState<Block>,
    /// The certificate of each certified block.
    pub cert_map: Map<Digest, Arc<Certificate>>,
    /// The votes that have come for each block.
    pub vote_map: Map<Digest, Arc<Certificate>>,
    pub height: Height,
    pub last_leader: Replica,
    pub last_seen: Arc<Block>,
    pub last_seen_cert: Arc<Certificate>,
    pub last_committed_ht: Height,
    pub view: ViewNumber,
    /// The transactions that wait to be proposed.
    pub txs: Seq<(Digest, Arc<Tx>)>,
    /// The batches that wait to be proposed.
    pub pending: Seq<HashedBatch<Tx>>,
    pub clients: Seq<ClientId>,
    pub payload: usize,
    /// Every node but this one.
    pub peers: Seq<Replica>,
    pub outbox: Seq<Action<Tx>>,
}

/// The nodes that voted.
pub open spec fn voters(votes: Seq<Arc<Vote>>) -> Set<Replica> {
    Set::new(|r: Replica| exists|i: int| 0 <= i < votes.len() && (#[trigger] votes[i]).origin == r)
}

/// The announcement of a chain of blocks that was handed out last one first: the oldest is
/// announced first.
pub open spec fn announces<Tx>(chain: Seq<Arc<Block>>) -> Seq<Action<Tx>> {
    Seq::new(chain.len(), |i: int| Action::Announce(chain[chain.len() - 1 - i]))
}

/// A certificate with one more vote.
pub open spec fn is_grown(c: Certificate, before: Certificate, v: Arc<Vote>) -> bool {
    c.msg == before.msg && c.votes@ == before.votes@.push(v)
}

impl<Tx> State<Tx> {
    /// What holds of every node: every delivered block has committed or has its parent
    /// delivered, and the last block seen is delivered.
    pub open spec fn inv(self) -> bool {
        &&& 0 < self.num_nodes <= u16::MAX
        &&& self.storage.inv()
        &&& forall|h: Digest| #[trigger]
            self.storage.delivered.contains_key(h) ==> self.storage.committed.contains_key(h)
                || self.storage.delivered.contains_key(
                self.storage.delivered[h].header.prev,
            )
        &&& self.storage.delivered.contains_key(self.last_seen.hash)
    }

    /// The node with one more thing to do outside.
    pub open spec fn with_action(self, a: Action<Tx>) -> Self {
        State { outbox: self.outbox.push(a), ..self }
    }

    /// The leader of the view: they take turns.
    pub open spec fn leader_of_view(self) -> Replica {
        (self.view % self.num_nodes as u64) as Replica
    }

    /// Whether a certificate is one of these votes: each by a known node, with its signature.
    pub open spec fn votes_ok(self, votes: Seq<Arc<Vote>>) -> bool {
        forall|i: int|
            0 <= i < votes.len() ==> self.keys.contains((#[trigger] votes[i]).origin)
                && votes[i].signed
    }

    /// Whether a certificate is good for the parent of a block.
    pub open spec fn certifies_parent(self, c: Certificate, prev: Digest) -> bool {
        &&& c.msg matches CertType::Vote(_, h) && h == prev
        &&& self.votes_ok(c.votes@)
        &&& voters(c.votes@).len() >= self.num_faults
    }

    /// Whether a proposal is good. It must be for its block; the block must be the view
    /// leader's and signed by it; the first block extends the start; any other extends the last
    /// block seen and has enough votes for it.
    pub open spec fn judged(self, p: Propose, b: Block) -> Result<bool, Halt> {
        let first = b.header.height == 1;
        if b.hash != p.block_hash || b.header.author != self.leader_of_view() {
            Ok(false)
        } else if first && b.header.prev != empty_hash() {
            Ok(false)
        } else if b.header.height > 1 && p.cert.votes@.len() <= self.num_faults {
            Ok(false)
        } else if !self.keys.contains(b.header.author) {
            Err(Halt::UnknownLeader)
        } else if !p.signed {
            Ok(false)
        } else if p.view != self.view {
            Err(Halt::WrongView)
        } else if first {
            Ok(true)
        } else {
            Ok(
                self.certifies_parent(*p.cert, b.header.prev) && b.header.prev
                    == self.last_seen.hash,
            )
        }
    }

    /// The node after it took a good proposal: it votes, and the block is the last one seen.
    /// Without the parent nothing happens.
    pub open spec fn took(self, p: Arc<Propose>, b: Arc<Block>, vote: Arc<Certificate>) -> (
        Self,
        bool,
    ) {
        if !self.storage.delivered.contains_key(b.header.prev) {
            (self, false)
        } else {
            let s = self.with_action(Action::Multicast(ProtocolMsg::VoteMsg(vote, p)));
            (
                State {
                    storage: s.storage.deliver(b),
                    txs: without(s.txs, b.tx_hashes@),
                    height: b.header.height,
                    last_seen: b,
                    last_seen_cert: p.cert,
                    ..s
                },
                true,
            )
        }
    }

    /// The node after a proposal came, and whether it was taken. One whose block is here
    /// already is passed over.
    pub open spec fn received(self, p: Arc<Propose>, b: Arc<Block>, vote: Arc<Certificate>) -> Result<
        (Self, bool),
        Halt,
    > {
        if self.storage.delivered.contains_key(b.hash) {
            Ok((self, false))
        } else {
            match self.judged(*p, *b) {
                Err(h) => Err(h),
                Ok(false) => Ok((self, false)),
                Ok(true) => Ok(self.took(p, b, vote)),
            }
        }
    }

    /// The header of the block that this node would propose.
    pub open spec fn next_header(self) -> Header
        recommends
            self.last_seen.header.height < u64::MAX,
    {
        Header {
            prev: self.last_seen.hash,
            author: self.myid,
            height: (self.last_seen.header.height + 1) as u64,
        }
    }

    /// The node after it proposed a block.
    pub open spec fn proposed(
        self,
        p: Arc<Propose>,
        b: Arc<Block>,
        batch: Option<HashedBatch<Tx>>,
    ) -> Self {
        let s = self.with_action(Action::Multicast(ProtocolMsg::NewProposal(p, b, batch)));
        State { storage: s.storage.deliver(b), ..s }
    }

    /// The node after a proposal was to commit: the block commits with all its ancestors, and
    /// each is to be announced, the oldest first. Nothing happens if the block is not here or
    /// has committed.
    pub open spec fn committed(self, p: Propose) -> Self {
        let h = p.block_hash;
        if !self.storage.delivered.contains_key(h) || self.storage.committed.contains_key(h) {
            self
        } else {
            let chain = self.storage.commits(h)->0;
            State {
                storage: self.storage.commit_all(chain),
                last_committed_ht: self.storage.delivered[h].header.height,
                outbox: self.outbox + announces(chain),
                ..self
            }.with_action(Action::CollectHandlers)
        }
    }

    /// The node after it told the clients of a committed block.
    pub open spec fn announced(self, block: Arc<Block>, tx_hashes: Arc<Vec<Digest>>) -> Self {
        if self.clients.len() == 0 {
            self
        } else {
            self.with_action(
                Action::NotifyClients { block, tx_hashes, payload: self.payload },
            )
        }
    }

    /// Whether a vote message is good: one vote, by a known node with its signature, for the
    /// block of the proposal, which is delivered and the only one at its height.
    pub open spec fn vote_ok(self, c: Certificate, p: Propose) -> Result<bool, Halt> {
        if c.votes@.len() != 1 || !self.keys.contains(c.votes@[0].origin) {
            Ok(false)
        } else {
            match c.msg {
                CertType::Blame(_, _) => Err(Halt::NotAVote),
                CertType::Vote(_, h) => Ok(
                    {
                        &&& h == p.block_hash
                        &&& c.votes@[0].signed
                        &&& self.storage.delivered.contains_key(h)
                        &&& !self.forked(h)
                    },
                ),
            }
        }
    }

    /// Whether another block is filed at the height of a delivered block.
    pub open spec fn forked(self, h: Digest) -> bool {
        let height = self.storage.delivered[h].header.height;
        self.storage.by_height.contains_key(height) && self.storage.by_height[height].hash != h
    }

    /// The node after a good vote was added for a block; `cert` holds the votes by now. Once
    /// there are more votes than faults the block is certified.
    pub open spec fn counted(self, h: Digest, cert: Arc<Certificate>) -> Self {
        let s = State { vote_map: self.vote_map.insert(h, cert), ..self };
        if self.vote_map.contains_key(h) && cert.votes@.len() > self.num_faults {
            State { cert_map: s.cert_map.insert(h, cert), last_seen_cert: cert, ..s }
        } else {
            s
        }
    }

    /// Whether `cert` holds the votes for a block once the vote of `c` was added.
    pub open spec fn is_tally(self, h: Digest, c: Arc<Certificate>, cert: Arc<Certificate>) -> bool {
        if self.vote_map.contains_key(h) {
            is_grown(*cert, *self.vote_map[h], c.votes@[c.votes@.len() - 1])
        } else {
            cert == c
        }
    }
}

/// Every delivered block can commit.
pub proof fn lemma_can_commit<Tx>(s: State<Tx>, h: Digest)
    requires
        s.inv(),
        s.storage.delivered.contains_key(h),
    ensures
        s.storage.commits(h) is Some,
{
    assert forall|k: Digest| #[trigger]
        s.storage.delivered.contains_key(k) implies s.storage.committed.dom().contains(k)
        || s.storage.committed.dom().contains(s.storage.delivered[k].spec_header().prev)
        || s.storage.delivered.contains_key(s.storage.delivered[k].spec_header().prev) by {}
    law_delivered_can_commit(s.storage.delivered, s.storage.committed.dom(), h);
}

/// Taking a proposal keeps the invariant.
pub proof fn lemma_took_inv<Tx>(
    s: State<Tx>,
    p: Arc<Propose>,
    b: Arc<Block>,
    vote: Arc<Certificate>,
)
    requires
        s.inv(),
    ensures
        s.took(p, b, vote).0.inv(),
{
}

/// A commit keeps the invariant.
pub proof fn lemma_committed_inv<Tx>(s: State<Tx>, p: Propose)
    requires
        s.inv(),
    ensures
        s.committed(p).inv(),
{
    let h = p.block_hash;
    if s.storage.delivered.contains_key(h) && !s.storage.committed.contains_key(h) {
        lemma_can_commit(s, h);
        let chain = s.storage.commits(h)->0;
        crate::chain::storage::lemma_with_committed(s.storage.committed, chain);
    }
}

} // verus!
