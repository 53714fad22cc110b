//! Messages.

use crate::mempool::processor::HashedBatch;
use crate::optsync::context::{Context, State};
use crate::optsync::vote::{counted, on_vote, vote_counts};
use crate::synchs::commit::on_commit;
use crate::synchs::proposal::{is_vote_for, on_receive_proposal as on_receive_sync_proposal};
use crate::synchs::state::State as SyncState;
use crate::synchs::types::{Action, Block, Certificate, Halt, Propose, ProtocolMsg};
use std::sync::Arc;
use vstd::prelude::*;

verus! {

/// Whether the batch that came with a block is the one the block refers to.
pub open spec fn batch_fits<Tx>(b: Block, batch: Option<HashedBatch<Tx>>) -> bool {
    batch matches Some(hb) && hb.hash == b.batch_hash
}

/// Whether a node can go from `s` to `t` when a proposal comes with its batch: if it is taken,
/// the batch is kept and the block is to commit once twice the network delay has passed.
pub open spec fn receives<Tx>(
    s: SyncState<Tx>,
    p: Arc<Propose>,
    b: Arc<Block>,
    batch: Option<HashedBatch<Tx>>,
    auth: Arc<Vec<u8>>,
    t: SyncState<Tx>,
    taken: bool,
) -> bool {
    if !batch_fits(*b, batch) {
        t == s && !taken
    } else {
        exists|vote: Arc<Certificate>| #[trigger]
            is_vote_for(*vote, s, *b, auth) && match s.received(p, b, vote) {
                Err(_) => false,
                Ok((u, took)) => taken == took && t == if took {
                    u.with_action(Action::Persist(batch->0)).with_action(Action::Schedule(p))
                } else {
                    u
                },
            }
    }
}

/// A proposal came with its batch. `auth` is this node's signature on a vote for the block.
/// Hands back whether the proposal was taken.
pub fn on_receive_proposal<Tx>(
    p: Arc<Propose>,
    new_block: Arc<Block>,
    batch: Option<HashedBatch<Tx>>,
    auth: Arc<Vec<u8>>,
    cx: &mut Context<Tx>,
) -> (r: Result<bool, Halt>)
    requires
        old(cx)@.sync.inv(),
    ensures
        match r {
            Ok(taken) => {
                &&& final(cx)@.sync.inv()
                &&& final(cx)@ == (State { sync: final(cx)@.sync, ..old(cx)@ })
                &&& receives(old(cx)@.sync, p, new_block, batch, auth, final(cx)@.sync, taken)
            },
            Err(h) => batch_fits(*new_block, batch) && !old(
                cx,
            )@.sync.storage.delivered.contains_key(new_block.hash) && old(cx)@.sync.judged(
                *p,
                *new_block,
            ) == Err::<bool, Halt>(h),
        },
{
    let batch = match batch {
        Some(hb) => {
            if hb.hash != new_block.batch_hash {
                return Ok(false);
            }
            hb
        },
        None => {
            return Ok(false);
        },
    };
    match on_receive_sync_proposal(Arc::clone(&p), new_block, auth, &mut cx.sync) {
        Err(h) => Err(h),
        Ok(taken) => {
            if taken {
                cx.sync.outbox.push(Action::Persist(batch));
                cx.sync.outbox.push(Action::Schedule(p));
            }
            Ok(taken)
        },
    }
}

/// Whether a node can go from `s` to `t` by a message. A vote that lets a block commit at once
/// has it do so.
pub open spec fn processes<Tx>(
    s: State<Tx>,
    msg: ProtocolMsg<Tx>,
    auth: Arc<Vec<u8>>,
    t: State<Tx>,
) -> bool {
    match msg {
        ProtocolMsg::NewProposal(p, b, batch) => t == (State { sync: t.sync, ..s }) && exists|
            taken: bool,
        | #[trigger]
            receives(s.sync, p, b, batch, auth, t.sync, taken),
        ProtocolMsg::VoteMsg(c, p) => match vote_counts(s, *c, *p) {
            Err(_) => false,
            Ok(false) => t == s,
            Ok(true) => exists|cert: Arc<Certificate>| #[trigger]
                s.sync.is_tally(p.block_hash, c, cert) && {
                    let (u, fast) = counted(s, p.block_hash, cert);
                    t == if fast {
                        State { sync: u.sync.committed(*p), ..u }
                    } else {
                        u
                    }
                },
        },
    }
}

/// Handles one message. For a proposal, `auth` is this node's signature on a vote for its block.
pub fn process_msg<Tx>(cx: &mut Context<Tx>, protmsg: ProtocolMsg<Tx>, auth: Arc<Vec<u8>>) -> (r:
    Result<(), Halt>)
    requires
        old(cx)@.sync.inv(),
    ensures
        match r {
            Ok(()) => processes(old(cx)@, protmsg, auth, final(cx)@) && final(cx)@.sync.inv(),
            Err(h) => match protmsg {
                ProtocolMsg::NewProposal(p, b, batch) => batch_fits(*b, batch) && !old(
                    cx,
                )@.sync.storage.delivered.contains_key(b.hash) && old(cx)@.sync.judged(*p, *b)
                    == Err::<bool, Halt>(h),
                ProtocolMsg::VoteMsg(c, p) => vote_counts(old(cx)@, *c, *p) == Err::<bool, Halt>(
                    h,
                ),
            },
        },
{
    match protmsg {
        ProtocolMsg::NewProposal(p, b, batch) => {
            match on_receive_proposal(p, b, batch, auth, cx) {
                Err(h) => Err(h),
                Ok(_) => Ok(()),
            }
        },
        ProtocolMsg::VoteMsg(c, p) => {
            match on_vote(c, &*p, cx) {
                Err(h) => Err(h),
                Ok(fast) => {
                    if fast {
                        on_commit(&*p, &mut cx.sync);
                    }
                    Ok(())
                },
            }
        },
    }
}

} // verus!
