//! Commits.

use crate::digest::Digest;
use crate::synchs::context::Context;
use crate::synchs::state::{announces, lemma_can_commit, lemma_committed_inv, State};
use crate::synchs::types::{Action, Block, Propose};
use std::sync::Arc;
use vstd::prelude::*;

verus! {

/// Commits the block of a proposal and all its ancestors. Each block that commits is to be
/// announced, the oldest first. Nothing happens if the block is not here or has committed.
pub fn on_commit<Tx>(p: &Propose, cx: &mut Context<Tx>)
    requires
        old(cx)@.inv(),
    ensures
        final(cx)@ == old(cx)@.committed(*p),
        final(cx)@.inv(),
{
    let ghost s0 = cx@;
    proof {
        lemma_committed_inv(s0, *p);
    }
    let b = match cx.storage.delivered_block_from_hash(&p.block_hash) {
        Some(b) => b,
        None => {
            return ;
        },
    };
    if cx.storage.is_committed_by_hash(&b.hash) {
        return ;
    }
    proof {
        lemma_can_commit(s0, p.block_hash);
    }
    cx.last_committed_block_ht = b.header.height;
    let chain = match cx.storage.commit_chain(b.hash) {
        Ok(chain) => chain,
        Err(_) => {
            return ;
        },
    };
    let ghost s1 = cx@;
    let mut i: usize = chain.len();
    assert(s1.outbox =~= s0.outbox + announces::<Tx>(chain@).take(0));
    while i > 0
        invariant
            i <= chain@.len(),
            cx@ == (State {
                outbox: s0.outbox + announces::<Tx>(chain@).take(chain@.len() - i),
                ..s1
            }),
        decreases i,
    {
        i = i - 1;
        cx.outbox.push(Action::Announce(Arc::clone(&chain[i])));
        assert(cx@.outbox =~= s0.outbox + announces::<Tx>(chain@).take(chain@.len() - i));
    }
    assert(announces::<Tx>(chain@).take(chain@.len() as int) =~= announces::<Tx>(chain@));
    cx.outbox.push(Action::CollectHandlers);
}

/// Tells the clients of a committed block. `tx_hashes` are the hashes of the transactions in the
/// batch that was found for it; without the batch they hear of no transactions.
pub fn announce<Tx>(block: Arc<Block>, tx_hashes: Option<Arc<Vec<Digest>>>, cx: &mut Context<Tx>)
    ensures
        match tx_hashes {
            Some(tx_hashes) => final(cx)@ == old(cx)@.announced(block, tx_hashes),
            None => exists|none: Arc<Vec<Digest>>|
                none@.len() == 0 && final(cx)@ == #[trigger] old(cx)@.announced(block, none),
        },
{
    match tx_hashes {
        Some(tx_hashes) => {
            cx.multicast_client(block, tx_hashes);
        },
        None => {
            let none: Arc<Vec<Digest>> = Arc::new(Vec::new());
            cx.multicast_client(block, Arc::clone(&none));
            assert(cx@ == old(cx)@.announced(block, none));
        },
    }
}

/// A block commits with all its ancestors: after a commit the block and everything below it
/// have committed, and nothing that had is gone.
pub proof fn law_ancestors_commit<Tx>(s: State<Tx>, p: Propose, genesis: Digest)
    requires
        s.inv(),
        s.storage.closed_below(genesis),
        s.storage.committed.contains_key(genesis),
        s.storage.delivered.contains_key(p.block_hash),
    ensures
        s.committed(p).storage.committed.contains_key(p.block_hash),
        s.committed(p).storage.closed_below(genesis),
        s.storage.committed.dom().subset_of(s.committed(p).storage.committed.dom()),
{
    let h = p.block_hash;
    if !s.storage.committed.contains_key(h) {
        lemma_can_commit(s, h);
        crate::chain::storage::law_commit_leaves_no_gap(s.storage, h, genesis);
    }
}

} // verus!
