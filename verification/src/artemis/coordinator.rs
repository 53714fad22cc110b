//! The blocks of the view leader.

use crate::artemis::context::Context;
use crate::artemis::state::{
    lemma_delivered_inv, lemma_released_inv, lemma_stored_inv, State,
};
use crate::artemis::types::{Action, Halt, Metric, ProtocolMsg, SignedBlock};
use crate::chain::block::{Block, Header};
use crate::digest::Digest;
use crate::mempool::messages::BatcherConsensusMsg;
use crate::mempool::processor::HashedBatch;
use std::sync::Arc;
use vstd::prelude::*;

verus! {

/// The header of the block that this node would propose: it extends the last block seen.
pub fn next_header<Tx>(cx: &Context<Tx>) -> (h: Option<Header>)
    ensures
        h == (if cx@.last_seen.blk.header.height == u64::MAX {
            None
        } else {
            Some(cx@.next_header())
        }),
        h matches Some(h) ==> h.prev == cx@.last_seen.blk.hash && h.height == cx@.last_seen.blk.header.height + 1 && h.author
            == cx@.myid,
{
    let parent = &cx.last_seen_block;
    if parent.blk.header.height == u64::MAX {
        None
    } else {
        Some(
            Header {
                prev: parent.blk.hash,
                author: cx.myid,
                height: parent.blk.header.height + 1,
            },
        )
    }
}

/// Puts a batch in a block. `block_hash` is the hash of the block with the header of
/// [`next_header`], and `auth` this node's signature on it.
pub fn do_new_block<Tx>(
    batch: HashedBatch<Tx>,
    block_hash: Digest,
    auth: Arc<Vec<u8>>,
    cx: &mut Context<Tx>,
) -> (r: Result<(), Halt>)
    requires
        old(cx)@.inv(),
    ensures
        ({
            let s = old(cx)@;
            let block = Arc::new(
                SignedBlock {
                    blk: Block {
                        header: s.next_header(),
                        batch_hash: batch.hash,
                        hash: block_hash,
                    },
                    origin: s.myid,
                    auth,
                    signer: Some(s.myid),
                },
            );
            if s.last_seen.blk.header.height == u64::MAX {
                r == Err::<(), Halt>(Halt::Overflow)
            } else {
                match r {
                    Ok(()) => s.proposed(block, batch) == Ok::<State<Tx>, Halt>(final(cx)@)
                        && final(cx)@.inv(),
                    Err(h) => s.proposed(block, batch) == Err::<State<Tx>, Halt>(h),
                }
            }
        }),
{
    let header = match next_header(cx) {
        Some(h) => h,
        None => {
            return Err(Halt::Overflow);
        },
    };
    let block = Arc::new(
        SignedBlock {
            blk: Block { header, batch_hash: batch.hash, hash: block_hash },
            origin: cx.myid,
            auth,
            signer: Some(cx.myid),
        },
    );
    cx.outbox.push(Action::Record(Metric::Propose));
    let shared = Arc::clone(&batch.batch);
    cx.multicast(ProtocolMsg::NewBlock(Arc::clone(&block), batch));
    cx.outbox.push(
        Action::ToBatcher(BatcherConsensusMsg::Proposed { batch: shared, round: header.height }),
    );
    on_receive_new_block_direct(cx, block)
}

/// A block came from the view leader. It is delivered if it is new, extends a delivered block,
/// and is the view leader's.
pub fn on_receive_new_block_direct<Tx>(cx: &mut Context<Tx>, blk: Arc<SignedBlock>) -> (r: Result<
    (),
    Halt,
>)
    requires
        old(cx)@.inv(),
    ensures
        match r {
            Ok(()) => old(cx)@.received_block(blk) == Ok::<State<Tx>, Halt>(final(cx)@)
                && final(cx)@.inv(),
            Err(h) => old(cx)@.received_block(blk) == Err::<State<Tx>, Halt>(h),
        },
{
    if cx.storage.is_delivered_by_hash(&blk.blk.hash) {
        return Ok(());
    }
    if !cx.storage.is_delivered_by_hash(&blk.blk.header.prev) {
        return Ok(());
    }
    if cx.view_leader != blk.blk.header.author || cx.view_leader != blk.origin {
        return Ok(());
    }
    if cx.view_leader != cx.myid {
        match blk.signer {
            Some(signer) => {
                if signer != cx.view_leader {
                    return Ok(());
                }
            },
            None => {
                return Ok(());
            },
        }
    }
    do_delivery(blk, cx)
}

/// Whether the batch is the one that the block refers to.
pub fn check_batch_hash<Tx>(blk: &SignedBlock, batch: &HashedBatch<Tx>) -> (r: bool)
    ensures
        r == (batch.hash == blk.blk.batch_hash),
{
    batch.hash == blk.blk.batch_hash
}

/// Puts a block in storage; the highest block counts as the last seen.
fn store<Tx>(b: Arc<SignedBlock>, cx: &mut Context<Tx>)
    ensures
        final(cx)@ == old(cx)@.stored(b),
{
    cx.storage.add_delivered_block(Arc::clone(&b));
    cx.undelivered_blocks.remove(b.blk.hash);
    if cx.last_seen_block.blk.header.height < b.blk.header.height {
        cx.last_seen_block = b;
    }
}

/// Makes the vote that waited for a block ready.
fn release<Tx>(h: Digest, cx: &mut Context<Tx>)
    ensures
        final(cx)@ == old(cx)@.released(h),
{
    if let Some(v) = cx.vote_waiting.remove(h) {
        cx.vote_ready.insert(v.round, v);
    } else {
        assert(cx@.vote_waiting =~= old(cx)@.vote_waiting);
    }
}

/// Delivers a block, and with it all the blocks that waited for it. If the chain grew, the
/// batcher hears of it.
pub fn do_delivery<Tx>(blk: Arc<SignedBlock>, cx: &mut Context<Tx>) -> (r: Result<(), Halt>)
    requires
        old(cx)@.inv(),
    ensures
        match r {
            Ok(()) => old(cx)@.delivered(blk) == Ok::<State<Tx>, Halt>(final(cx)@)
                && final(cx)@.inv(),
            Err(h) => old(cx)@.delivered(blk) == Err::<State<Tx>, Halt>(h),
        },
{
    let ghost s0 = cx@;
    let before: u64 = cx.last_seen_block.blk.header.height;
    proof {
        lemma_stored_inv(s0, blk);
        lemma_released_inv(s0.stored(blk), blk.blk.hash);
        lemma_delivered_inv(s0, blk);
    }
    let mut cur: Digest = blk.blk.hash;
    store(blk, cx);
    release(cur, cx);
    let ghost s1 = cx@;
    loop
        invariant
            cx@.inv(),
            s1.adopted(blk.blk.hash) == cx@.adopted(cur),
        ensures
            cx@ == s1.adopted(blk.blk.hash),
        decreases cx@.parent_waiting.dom().len(),
    {
        let ghost s2 = cx@;
        match cx.block_parent_waiting.remove(cur) {
            None => {
                assert(cx@ =~= s2) by {
                    assert(s2.parent_waiting.remove(cur) =~= s2.parent_waiting);
                }
                break ;
            },
            Some(child) => {
                let ghost s3 = cx@;
                assert(s3.inv());
                let waiting = match cx.undelivered_blocks.get(child) {
                    Some(b) => Some(Arc::clone(b)),
                    None => None,
                };
                if let Some(b) = waiting {
                    proof {
                        lemma_stored_inv(s3, b);
                    }
                    store(b, cx);
                }
                proof {
                    lemma_released_inv(cx@, child);
                }
                release(child, cx);
                cur = child;
            },
        }
    }
    if cx.last_seen_block.blk.header.height > before {
        cx.announce_height_to_batcher()
    } else {
        Ok(())
    }
}

/// Only the view leader's blocks count: any other leaves the node as it was.
pub proof fn law_only_view_leader_counts<Tx>(s: State<Tx>, b: Arc<SignedBlock>)
    requires
        b.blk.header.author != s.view_leader || b.origin != s.view_leader || (s.view_leader
            != s.myid && b.signer != Some(s.view_leader)),
    ensures
        s.received_block(b) == Ok::<State<Tx>, Halt>(s),
{
}

} // verus!
