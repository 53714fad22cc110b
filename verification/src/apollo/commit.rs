//! Commits.

use crate::apollo::context::Context;
use crate::apollo::state::{settles, State};
use crate::apollo::types::{Action, Halt};
use crate::chain::block::{Block, Round};
use crate::digest::Digest;
use crate::mempool::batch::CachedBatch;
use crate::mempool::messages::BatcherConsensusMsg;
use std::sync::Arc;
use vstd::prelude::*;

verus! {

/// Commits the block of the proposal that is `num_faults` rounds back, and its ancestors. Each
/// block that commits is to be settled, the oldest first.
pub fn do_commit<Tx>(cx: &mut Context<Tx>) -> (r: Result<(), Halt>)
    requires
        old(cx)@.storage.inv(),
        old(cx)@.round > old(cx)@.num_faults,
        old(cx)@.by_round.contains_key((old(cx)@.round - old(cx)@.num_faults) as Round),
    ensures
        match r {
            Ok(()) => old(cx)@.committed() == Ok::<State<Tx>, Halt>(final(cx)@),
            Err(h) => old(cx)@.committed() == Err::<State<Tx>, Halt>(h),
        },
{
    let commit_round: Round = cx.round - cx.num_faults as u64;
    let h: Digest = match cx.prop_chain_by_round.get(commit_round) {
        Some(p) => p.block_hash,
        None => {
            return Err(Halt::BrokenChain);
        },
    };
    let ghost s0 = cx@;
    let chain = match cx.storage.commit_chain(h) {
        Ok(chain) => chain,
        Err(_) => {
            return Err(Halt::BrokenChain);
        },
    };
    let ghost s1 = cx@;
    let mut i: usize = chain.len();
    assert(s1.outbox =~= s0.outbox + settles::<Tx>(chain@).take(0));
    while i > 0
        invariant
            i <= chain@.len(),
            cx@ == (State {
                outbox: s0.outbox + settles::<Tx>(chain@).take(chain@.len() - i),
                ..s1
            }),
        decreases i,
    {
        i = i - 1;
        cx.outbox.push(Action::Settle(Arc::clone(&chain[i])));
        assert(cx@.outbox =~= s0.outbox + settles::<Tx>(chain@).take(chain@.len() - i));
    }
    assert(settles::<Tx>(chain@).take(chain@.len() as int) =~= settles::<Tx>(chain@));
    Ok(())
}

/// The node after a committed block was settled: the transactions of its batch count, and the
/// batcher and the router hear of the batch. Without the batch, nothing happens.
pub open spec fn settled<Tx>(
    s: State<Tx>,
    block: Block,
    batch: Option<Arc<CachedBatch<Tx>>>,
) -> State<Tx> {
    match batch {
        None => s,
        Some(b) => {
            let n = s.committed_txs + b.payload@.len();
            State {
                committed_txs: if n > u64::MAX {
                    u64::MAX
                } else {
                    n as u64
                },
                ..s
            }.with_action(
                Action::ToBatcher(
                    BatcherConsensusMsg::Committed { batch: b, round: block.header.height },
                ),
            ).with_action(Action::ToRouter(b))
        },
    }
}

/// Settles a committed block, given the batch that was found for it.
pub fn settle<Tx>(cx: &mut Context<Tx>, block: &Block, batch: Option<Arc<CachedBatch<Tx>>>)
    ensures
        final(cx)@ == settled(old(cx)@, *block, batch),
{
    if let Some(b) = batch {
        cx.bench_committed_tx_count = cx.bench_committed_tx_count.saturating_add(
            b.payload.len() as u64,
        );
        cx.outbox.push(
            Action::ToBatcher(
                BatcherConsensusMsg::Committed {
                    batch: Arc::clone(&b),
                    round: block.header.height,
                },
            ),
        );
        cx.outbox.push(Action::ToRouter(b));
    }
}

} // verus!
