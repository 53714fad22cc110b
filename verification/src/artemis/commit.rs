//! Commits.

use crate::artemis::context::Context;
use crate::artemis::state::{settles, State};
use crate::artemis::types::{Action, Halt, SignedBlock};
use crate::chain::block::Round;
use crate::digest::Digest;
use crate::mempool::batch::CachedBatch;
use crate::mempool::messages::BatcherConsensusMsg;
use std::sync::Arc;
use vstd::prelude::*;

verus! {

/// Commits the block that was voted for `num_faults` rounds back, and its ancestors. Each block
/// that commits counts as a full one, and is to be settled, the oldest first.
pub fn do_commit<Tx>(cx: &mut Context<Tx>) -> (r: Result<(), Halt>)
    requires
        old(cx)@.storage.inv(),
        old(cx)@.round > old(cx)@.num_faults,
        old(cx)@.vote_chain.contains_key((old(cx)@.round - old(cx)@.num_faults) as Round),
    ensures
        match r {
            Ok(()) => old(cx)@.committed() == Ok::<State<Tx>, Halt>(final(cx)@),
            Err(h) => old(cx)@.committed() == Err::<State<Tx>, Halt>(h),
        },
{
    let commit_round: Round = cx.round - cx.num_faults as u64;
    let h: Digest = match cx.vote_chain.get(commit_round) {
        Some(v) => v.hash,
        None => {
            return Err(Halt::BrokenChain);
        },
    };
    let ghost s0 = cx@;
    let chain = match cx.storage.commit_chain(h) {
        Ok(chain) => chain,
        Err(_) => {
            return Err(Halt::BrokenChain);
        },
    };
    let blocks: u64 = chain.len() as u64;
    let txs: u64 = match blocks.checked_mul(cx.block_size as u64) {
        Some(n) => n,
        None => {
            return Err(Halt::Overflow);
        },
    };
    cx.bench_committed_tx_count = cx.bench_committed_tx_count.saturating_add(txs);
    let ghost s1 = cx@;
    let mut i: usize = chain.len();
    assert(s1.outbox =~= s0.outbox + settles::<Tx>(chain@).take(0));
    while i > 0
        invariant
            i <= chain@.len(),
            cx@ == (State {
                outbox: s0.outbox + settles::<Tx>(chain@).take(chain@.len() - i),
                ..s1
            }),
        decreases i,
    {
        i = i - 1;
        cx.outbox.push(Action::Settle(Arc::clone(&chain[i])));
        assert(cx@.outbox =~= s0.outbox + settles::<Tx>(chain@).take(chain@.len() - i));
    }
    assert(settles::<Tx>(chain@).take(chain@.len() as int) =~= settles::<Tx>(chain@));
    Ok(())
}

/// Settles a committed block, given the batch that was found for it: the batcher and the router
/// hear of the batch. Without the batch, nothing happens.
pub fn settle<Tx>(cx: &mut Context<Tx>, block: &SignedBlock, batch: Option<Arc<CachedBatch<Tx>>>)
    ensures
        final(cx)@ == (match batch {
            None => old(cx)@,
            Some(b) => old(cx)@.with_action(
                Action::ToBatcher(
                    BatcherConsensusMsg::Committed { batch: b, round: block.blk.header.height },
                ),
            ).with_action(Action::ToRouter(b)),
        }),
{
    if let Some(b) = batch {
        cx.outbox.push(
            Action::ToBatcher(
                BatcherConsensusMsg::Committed {
                    batch: Arc::clone(&b),
                    round: block.blk.header.height,
                },
            ),
        );
        cx.outbox.push(Action::ToRouter(b));
    }
}

} // verus!
