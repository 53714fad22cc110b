//! Proposals.

use crate::apollo::commit::do_commit;
use crate::apollo::context::Context;
use crate::apollo::state::{lemma_accepted_inv, State};
use crate::apollo::types::{Action, Halt, Propose, ProtocolMsg};
use crate::chain::block::{Block, Header, Round};
use crate::digest::Digest;
use crate::mempool::batch::CachedBatch;
use crate::mempool::messages::BatcherConsensusMsg;
use crate::mempool::processor::HashedBatch;
use crate::mempool::tx::Replica;
use std::sync::Arc;
use vstd::prelude::*;

verus! {

/// The header of the block that this node would propose: it extends the last block seen.
pub fn next_header<Tx>(cx: &Context<Tx>) -> (h: Option<Header>)
    ensures
        h == (if cx@.last_seen.header.height == u64::MAX {
            None
        } else {
            Some(cx@.next_header())
        }),
        h matches Some(h) ==> h.prev == cx@.last_seen.hash && h.height == cx@.last_seen.header.height + 1 && h.author
            == cx@.myid,
{
    let parent = &cx.last_seen_block;
    if parent.header.height == u64::MAX {
        None
    } else {
        Some(Header { prev: parent.hash, author: cx.myid, height: parent.header.height + 1 })
    }
}

/// Proposes a block with this batch. `block_hash` is the hash of the block with the header of
/// [`next_header`], `auth` this node's signature on the proposal of it, and `tx_hashes` are the
/// hashes of the batch's transactions, for the clients.
pub fn do_propose<Tx>(
    batch: HashedBatch<Tx>,
    block_hash: Digest,
    auth: Arc<Vec<u8>>,
    tx_hashes: Arc<Vec<Digest>>,
    cx: &mut Context<Tx>,
) -> (r: Result<(), Halt>)
    requires
        old(cx)@.inv(),
    ensures
        ({
            let s = old(cx)@;
            let block = Arc::new(
                Block { header: s.next_header(), batch_hash: batch.hash, hash: block_hash },
            );
            let prop = Arc::new(
                Propose { block_hash, round: s.round, origin: s.myid, auth, signed: true },
            );
            if s.last_seen.header.height == u64::MAX {
                r == Err::<(), Halt>(Halt::Overflow)
            } else {
                match r {
                    Ok(()) => s.proposed(prop, block, batch, tx_hashes) == Ok::<State<Tx>, Halt>(
                        final(cx)@,
                    ) && final(cx)@.inv(),
                    Err(h) => s.proposed(prop, block, batch, tx_hashes) == Err::<State<Tx>, Halt>(
                        h,
                    ),
                }
            }
        }),
{
    let header = match next_header(cx) {
        Some(h) => h,
        None => {
            return Err(Halt::Overflow);
        },
    };
    let block = Arc::new(Block { header, batch_hash: batch.hash, hash: block_hash });
    let prop = Arc::new(
        Propose { block_hash, round: cx.round, origin: cx.myid, auth, signed: true },
    );
    cx.multicast(ProtocolMsg::NewProposal(Arc::clone(&prop), Arc::clone(&block), batch));
    if cx.is_client_apollo_enabled {
        cx.outbox.push(
            Action::NotifyClients {
                prop: Arc::clone(&prop),
                block: Arc::clone(&block),
                tx_hashes,
            },
        );
    }
    cx.storage.add_delivered_block(Arc::clone(&block));
    proof {
        lemma_accepted_inv(cx@, prop, block);
    }
    on_receive_proposal(prop, block, cx)
}

/// Looks at a proposal whose block and parent are delivered. `from` is the node to ask for more
/// if the proposal is for later.
pub fn try_receive_proposal<Tx>(
    p: Arc<Propose>,
    block: Arc<Block>,
    from: Replica,
    cx: &mut Context<Tx>,
) -> (r: Result<(), Halt>)
    requires
        old(cx)@.inv(),
    ensures
        match r {
            Ok(()) => old(cx)@.received(p, block, from) == Ok::<State<Tx>, Halt>(final(cx)@),
            Err(h) => old(cx)@.received(p, block, from) == Err::<State<Tx>, Halt>(h),
        },
{
    if cx.round > p.round {
        return Ok(());
    }
    if cx.round < p.round {
        cx.future_msgs.insert(p.round, (from, p));
        return Ok(());
    }
    if block.hash != p.block_hash {
        return Ok(());
    }
    if cx.round_leader != p.origin {
        return Ok(());
    }
    if cx.round_leader != block.header.author {
        return Ok(());
    }
    if p.origin != cx.myid && !p.signed {
        return Ok(());
    }
    on_receive_proposal(p, block, cx)
}

/// Whether the batch is the one that the block commits to.
pub fn check_batch_hash<Tx>(block: &Block, batch: &HashedBatch<Tx>) -> (r: bool)
    ensures
        r == (batch.hash == block.batch_hash),
{
    batch.hash == block.batch_hash
}

/// Accepts a proposal for this round, unless its author equivocates: hands it on to the next
/// leader, has the batcher told of it, commits what is old enough, and begins the next round.
pub fn on_receive_proposal<Tx>(p: Arc<Propose>, block: Arc<Block>, cx: &mut Context<Tx>) -> (r:
    Result<(), Halt>)
    requires
        old(cx)@.inv(),
        p.round == old(cx)@.round,
    ensures
        match r {
            Ok(()) => old(cx)@.accepted(p, block) == Ok::<State<Tx>, Halt>(final(cx)@),
            Err(h) => old(cx)@.accepted(p, block) == Err::<State<Tx>, Halt>(h),
        },
{
    if let Some(x) = cx.storage.delivered_block_from_ht(block.header.height) {
        if x.hash != block.hash && x.header.author == block.header.author {
            return Ok(());
        }
    }
    let next = cx.next_leader();
    let myid = cx.myid;
    cx.send(next, ProtocolMsg::Relay(myid, Arc::clone(&p)));
    cx.prop_chain_by_hash.insert(p.block_hash, Arc::clone(&p));
    let round: Round = p.round;
    cx.prop_chain_by_round.insert(round, p);
    cx.outbox.push(Action::Admit { block: Arc::clone(&block), round });
    proof {
        assert forall|r: u64| 1 <= r < cx@.round implies #[trigger] cx@.by_round.contains_key(r) by {
            assert(old(cx)@.by_round.contains_key(r));
        }
        let r = (cx@.round - cx@.num_faults) as u64;
        if cx@.round > cx@.num_faults && r < cx@.round {
            assert(old(cx)@.by_round.contains_key(r));
        }
    }
    if cx.round > cx.num_faults as u64 {
        match do_commit(cx) {
            Ok(()) => {},
            Err(h) => {
                return Err(h);
            },
        }
    }
    cx.last_seen_block = block;
    cx.update_round()
}

/// The node after the batcher was told of the batch of a proposal that was accepted in `round`.
/// Without the batch, nothing happens.
pub open spec fn admitted<Tx>(
    s: State<Tx>,
    round: Round,
    batch: Option<Arc<CachedBatch<Tx>>>,
) -> State<Tx> {
    match batch {
        None => s,
        Some(batch) => s.with_action(
            Action::ToBatcher(BatcherConsensusMsg::Proposed { batch, round }),
        ),
    }
}

/// Tells the batcher of a proposal that was accepted in `round`, given the batch that was found
/// for its block.
pub fn admit_batch<Tx>(cx: &mut Context<Tx>, round: Round, batch: Option<Arc<CachedBatch<Tx>>>)
    ensures
        final(cx)@ == admitted(old(cx)@, round, batch),
{
    if let Some(batch) = batch {
        cx.outbox.push(Action::ToBatcher(BatcherConsensusMsg::Proposed { batch, round }));
    }
}

/// A round is never taken back: what is accepted in a round stays, and no other proposal is
/// accepted for it.
pub proof fn law_one_proposal_per_round<Tx>(s: State<Tx>, p: Arc<Propose>, b: Arc<Block>)
    requires
        s.inv(),
        p.round == s.round,
        !s.equivocates(*b),
        s.accepted(p, b) is Ok,
    ensures
        ({
            let t = s.accepted(p, b)->Ok_0;
            &&& t.round == s.round + 1
            &&& t.leader == s.next_of(s.leader)
            &&& t.by_round == s.by_round.insert(s.round, p)
            &&& t.last_seen == b
            &&& forall|q: Arc<Propose>, c: Arc<Block>, from: Replica|
                q.round <= s.round ==> #[trigger] t.received(q, c, from) == Ok::<State<Tx>, Halt>(t)
        }),
{
}

/// Only the leader's proposals count: any other leaves the node as it was.
pub proof fn law_only_leader_counts<Tx>(
    s: State<Tx>,
    p: Arc<Propose>,
    b: Arc<Block>,
    from: Replica,
)
    requires
        p.round == s.round,
        p.origin != s.leader || b.header.author != s.leader || b.hash != p.block_hash || (p.origin
            != s.myid && !p.signed),
    ensures
        s.received(p, b, from) == Ok::<State<Tx>, Halt>(s),
{
}

/// The next leader hears of an accepted proposal before anything commits.
pub proof fn law_relay_first<Tx>(s: State<Tx>, p: Arc<Propose>, b: Arc<Block>)
    requires
        s.inv(),
        p.round == s.round,
        !s.equivocates(*b),
        s.next_of(s.leader) != s.myid,
        s.accepted(p, b) is Ok,
    ensures
        ({
            let t = s.accepted(p, b)->Ok_0;
            &&& t.outbox.len() > s.outbox.len()
            &&& t.outbox[s.outbox.len() as int] == Action::<Tx>::Send {
                to: s.next_of(s.leader),
                msg: ProtocolMsg::Relay(s.myid, p),
            }
        }),
{
}

/// The batcher hears of an accepted proposal once the next leader has heard of it, and before
/// anything commits; and it hears of the next round last.
pub proof fn law_batcher_follows<Tx>(s: State<Tx>, p: Arc<Propose>, b: Arc<Block>)
    requires
        s.inv(),
        p.round == s.round,
        !s.equivocates(*b),
        s.accepted(p, b) is Ok,
    ensures
        ({
            let t = s.accepted(p, b)->Ok_0;
            let n = s.sent(s.next_of(s.leader), ProtocolMsg::Relay(s.myid, p)).outbox.len();
            &&& n < t.outbox.len()
            &&& t.outbox[n as int] == Action::<Tx>::Admit { block: b, round: s.round }
            &&& t.outbox.last() == Action::<Tx>::ToBatcher(
                BatcherConsensusMsg::NewRound { leader: s.next_of(s.leader), round: t.round },
            )
        }),
{
}

} // verus!
