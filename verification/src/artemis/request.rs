//! Requests for blocks, and the answers.

use crate::artemis::context::Context;
use crate::artemis::types::{Action, ProtocolMsg, SignedBlock};
use crate::digest::Digest;
use crate::mempool::batch::CachedBatch;
use crate::mempool::processor::HashedBatch;
use crate::mempool::tx::Replica;
use std::sync::Arc;
use vstd::prelude::*;

verus! {

/// A node asks for the block with hash `h`. If the block is here, delivered or not, its batch
/// is to be read and the request to be answered.
pub fn handle_request<Tx>(sender: Replica, req_id: u64, h: Digest, cx: &mut Context<Tx>)
    ensures
        final(cx)@ == old(cx)@.requested(sender, req_id, h),
{
    let block = match cx.storage.delivered_block_from_hash(&h) {
        Some(b) => b,
        None => match cx.undelivered_blocks.get(h) {
            Some(b) => Arc::clone(b),
            None => {
                return ;
            },
        },
    };
    cx.outbox.push(Action::Serve { to: sender, req_id, block });
}

/// Answers a request, given the batch that was found for the block. Without the batch there is
/// no answer.
pub fn respond<Tx>(
    to: Replica,
    req_id: u64,
    block: Arc<SignedBlock>,
    batch: Option<Arc<CachedBatch<Tx>>>,
    cx: &mut Context<Tx>,
)
    ensures
        final(cx)@ == (match batch {
            None => old(cx)@,
            Some(b) => old(cx)@.sent(
                to,
                ProtocolMsg::Response(
                    old(cx)@.myid,
                    req_id,
                    block,
                    HashedBatch { hash: block.blk.batch_hash, batch: b },
                ),
            ),
        }),
{
    if let Some(b) = batch {
        let myid = cx.myid;
        let hash: Digest = block.blk.batch_hash;
        cx.send(to, ProtocolMsg::Response(myid, req_id, block, HashedBatch { hash, batch: b }));
    }
}

/// Asks `sender` for the block with this hash.
pub fn do_request<Tx>(cx: &mut Context<Tx>, sender: Replica, h: Digest)
    ensures
        final(cx)@ == old(cx)@.asked(sender, h),
{
    let myid = cx.myid;
    let req_ctr: u64 = cx.req_ctr;
    cx.send(sender, ProtocolMsg::Request(myid, req_ctr, h));
}

} // verus!
