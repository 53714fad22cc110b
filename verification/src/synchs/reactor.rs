//! How a Sync HotStuff node reacts to what happens.

use crate::digest::Digest;
use crate::mempool::processor::HashedBatch;
use crate::synchs::commit::on_commit;
use crate::synchs::context::Context;
use crate::synchs::proposal::{do_propose, is_vote_for, on_receive_proposal, NewBlock};
use crate::synchs::queue::{txs_of, without};
use crate::synchs::state::State;
use crate::synchs::types::{Action, Block, Certificate, Halt, Propose};
use crate::synchs::vote::on_vote;
use std::sync::Arc;
use vstd::prelude::*;

verus! {

/// What happens to a node.
pub enum Event<Tx> {
    /// A proposal came, with its block. `auth` is this node's signature on a vote for it.
    Proposal { prop: Arc<Propose>, block: Arc<Block>, auth: Arc<Vec<u8>> },
    /// A vote came for a proposal.
    Vote { cert: Arc<Certificate>, prop: Arc<Propose> },
    /// A client's transaction came, with its hash.
    Tx { hash: Digest, tx: Arc<Tx> },
    /// Twice the network delay has passed for a proposal.
    Timer(Arc<Propose>),
    /// The timers have run out.
    TimersDone,
    /// A timer failed, or bytes came that could not be decoded.
    Misfire,
    /// Nothing will come from the other nodes, or from the clients, any more.
    Closed,
}

/// What comes next.
#[derive(Debug, Clone, Copy, PartialEq, Eq, Structural)]
pub enum Next {
    /// Propose if this node is to, then wait for the next event.
    Propose,
    /// Wait for the next event.
    Wait,
    /// End the reactor.
    Stop,
}

/// Whether a node can go from `s` to `t` by an event.
pub open spec fn goes<Tx>(s: State<Tx>, ev: Event<Tx>, t: State<Tx>) -> bool {
    match ev {
        Event::Proposal { prop, block, auth } => exists|vote: Arc<Certificate>| #[trigger]
            is_vote_for(*vote, s, *block, auth) && match s.received(prop, block, vote) {
                Err(_) => false,
                Ok((u, taken)) => t == if taken {
                    u.with_action(Action::Schedule(prop))
                } else {
                    u
                },
            },
        Event::Vote { cert, prop } => match s.vote_ok(*cert, *prop) {
            Err(_) => false,
            Ok(false) => t == s,
            Ok(true) => exists|tally: Arc<Certificate>| #[trigger]
                s.is_tally(prop.block_hash, cert, tally) && t == s.counted(prop.block_hash, tally),
        },
        Event::Tx { hash, tx } => t == State {
            txs: without(s.txs, seq![hash]).push((hash, tx)),
            ..s
        },
        Event::Timer(p) => t == s.committed(*p),
        _ => t == s,
    }
}

/// What comes after an event.
pub open spec fn next_of<Tx>(ev: Event<Tx>) -> Next {
    match ev {
        Event::Misfire => Next::Wait,
        Event::Closed => Next::Stop,
        _ => Next::Propose,
    }
}

/// Handles one event. A proposal that is taken is to commit once twice the network delay has
/// passed.
pub fn react<Tx>(ev: Event<Tx>, cx: &mut Context<Tx>) -> (r: Result<Next, Halt>)
    requires
        old(cx)@.inv(),
    ensures
        match r {
            Ok(next) => goes(old(cx)@, ev, final(cx)@) && next == next_of(ev) && final(cx)@.inv(),
            Err(h) => match ev {
                Event::Proposal { prop, block, .. } => !old(
                    cx,
                )@.storage.delivered.contains_key(block.hash) && old(cx)@.judged(*prop, *block)
                    == Err::<bool, Halt>(h),
                Event::Vote { cert, prop } => old(cx)@.vote_ok(*cert, *prop) == Err::<bool, Halt>(
                    h,
                ),
                _ => false,
            },
        },
{
    match ev {
        Event::Proposal { prop, block, auth } => {
            match on_receive_proposal(Arc::clone(&prop), Arc::clone(&block), Arc::clone(&auth), cx) {
                Err(h) => Err(h),
                Ok(taken) => {
                    if taken {
                        cx.outbox.push(Action::Schedule(Arc::clone(&prop)));
                    }
                    Ok(Next::Propose)
                },
            }
        },
        Event::Vote { cert, prop } => match on_vote(cert, &*prop, cx) {
            Err(h) => Err(h),
            Ok(()) => Ok(Next::Propose),
        },
        Event::Tx { hash, tx } => {
            cx.tx_pool.add_transaction(hash, tx);
            Ok(Next::Propose)
        },
        Event::Timer(p) => {
            on_commit(&*p, cx);
            Ok(Next::Propose)
        },
        Event::TimersDone => Ok(Next::Propose),
        Event::Misfire => Ok(Next::Wait),
        Event::Closed => Ok(Next::Stop),
    }
}

/// Whether this node is to propose: it leads, enough transactions wait to fill a block, and the
/// last block seen is certified.
pub open spec fn is_to_propose<Tx>(s: State<Tx>, block_size: usize) -> bool {
    &&& s.txs.len() >= block_size
    &&& s.last_leader == s.myid
    &&& s.cert_map.contains_key(s.last_seen.hash)
}

/// The transactions of the next block, if this node is to propose.
pub fn next_txs<Tx>(block_size: usize, cx: &mut Context<Tx>) -> (r: Option<Vec<Arc<Tx>>>)
    requires
        old(cx)@.inv(),
    ensures
        final(cx)@.inv(),
        r is Some == is_to_propose(old(cx)@, block_size),
        r matches Some(txs) ==> txs@ == txs_of(old(cx)@.txs.take(block_size as int)) && final(cx)@
            == (State { txs: old(cx)@.txs.skip(block_size as int), ..old(cx)@ }),
        r is None ==> final(cx)@ == old(cx)@,
{
    if cx.tx_pool.get_tx_pool_size() >= block_size && cx.next_leader() == cx.myid
        && cx.cert_map.contains_key(cx.last_seen_block.hash) {
        Some(cx.tx_pool.cleave(block_size))
    } else {
        None
    }
}

/// Proposes a block, to commit once twice the network delay has passed.
pub fn propose<Tx>(new: NewBlock, batch: Option<HashedBatch<Tx>>, cx: &mut Context<Tx>) -> (r: Result<
    Arc<Propose>,
    Halt,
>)
    requires
        old(cx)@.inv(),
        old(cx)@.cert_map.contains_key(old(cx)@.last_seen.hash),
    ensures
        match r {
            Err(h) => h == Halt::Overflow && old(cx)@.last_seen.header.height == u64::MAX
                && final(cx)@ == old(cx)@,
            Ok(p) => {
                let b = Arc::new(
                    Block {
                        header: old(cx)@.next_header(),
                        tx_hashes: new.tx_hashes,
                        batch_hash: new.batch_hash,
                        hash: new.block_hash,
                    },
                );
                &&& old(cx)@.last_seen.header.height < u64::MAX
                &&& *p == (Propose {
                    block_hash: new.block_hash,
                    cert: old(cx)@.cert_map[old(cx)@.last_seen.hash],
                    view: old(cx)@.view,
                    proof: new.proof_bytes,
                    signed: true,
                })
                &&& final(cx)@ == old(cx)@.proposed(p, b, batch).with_action(Action::Schedule(p))
                &&& final(cx)@.inv()
            },
        },
{
    match do_propose(new, batch, cx) {
        Err(h) => Err(h),
        Ok((p, _)) => {
            cx.outbox.push(Action::Schedule(Arc::clone(&p)));
            Ok(p)
        },
    }
}

} // verus!
