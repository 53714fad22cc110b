//! Requests for blocks, and the answers.

use crate::apollo::context::Context;
use crate::apollo::types::{Action, Propose, ProtocolMsg};
use crate::chain::block::Block;
use crate::digest::Digest;
use crate::mempool::batch::CachedBatch;
use crate::mempool::processor::HashedBatch;
use crate::mempool::tx::Replica;
use std::sync::Arc;
use vstd::prelude::*;

verus! {

/// A node asks for the block with hash `h`. If its proposal was accepted here and the block is
/// here, the batch is to be read and the request to be answered.
pub fn on_recv_request<Tx>(sender: Replica, req_id: u64, h: Digest, cx: &mut Context<Tx>)
    ensures
        final(cx)@ == old(cx)@.requested(sender, req_id, h),
{
    let prop = match cx.prop_chain_by_hash.get(h) {
        None => {
            return ;
        },
        Some(p) => Arc::clone(p),
    };
    let block = match cx.storage.delivered_block_from_hash(&h) {
        None => {
            return ;
        },
        Some(b) => b,
    };
    cx.outbox.push(Action::Serve { to: sender, req_id, prop, block });
}

/// Answers a request, given the batch that was found for the block. Without the batch there is
/// no answer.
pub fn respond<Tx>(
    to: Replica,
    req_id: u64,
    prop: Arc<Propose>,
    block: Arc<Block>,
    batch: Option<Arc<CachedBatch<Tx>>>,
    cx: &mut Context<Tx>,
)
    ensures
        final(cx)@ == (match batch {
            None => old(cx)@,
            Some(b) => old(cx)@.sent(
                to,
                ProtocolMsg::Response(
                    old(cx)@.myid,
                    req_id,
                    prop,
                    block,
                    HashedBatch { hash: block.batch_hash, batch: b },
                ),
            ),
        }),
{
    if let Some(b) = batch {
        let myid = cx.myid;
        let hash: Digest = block.batch_hash;
        cx.send(
            to,
            ProtocolMsg::Response(myid, req_id, prop, block, HashedBatch { hash, batch: b }),
        );
    }
}

/// Asks `to` for the block with this hash.
pub fn do_request<Tx>(b_hash: Digest, to: Replica, cx: &mut Context<Tx>)
    ensures
        final(cx)@ == old(cx)@.asked(to, b_hash),
{
    let myid = cx.myid;
    let req_ctr: u64 = cx.req_ctr;
    cx.send(to, ProtocolMsg::Request(myid, req_ctr, b_hash));
}

} // verus!
