//! How an Opt Sync node reacts to what happens.

use crate::mempool::processor::HashedBatch;
use crate::optsync::context::{Context, State};
use crate::optsync::process::{batch_fits, process_msg, processes};
use crate::optsync::vote::vote_counts;
use crate::synchs::commit::on_commit;
use crate::synchs::reactor::Next;
use crate::synchs::state::State as SyncState;
use crate::synchs::types::{Halt, Propose, ProtocolMsg};
use std::sync::Arc;
use vstd::prelude::*;

verus! {

/// What happens to a node.
pub enum Event<Tx> {
    /// A message came from another node. For a proposal, `auth` is this node's signature on a
    /// vote for its block.
    Message { msg: ProtocolMsg<Tx>, auth: Arc<Vec<u8>> },
    /// The mempool has a new batch.
    Batch(HashedBatch<Tx>),
    /// Twice the network delay has passed for a proposal.
    Timer(Arc<Propose>),
    /// The timers have run out.
    TimersDone,
    /// A timer failed, or bytes came that could not be decoded.
    Misfire,
    /// Nothing will come from the other nodes, or from the mempool, any more.
    Closed,
}

/// Whether a node can go from `s` to `t` by an event.
pub open spec fn goes<Tx>(s: State<Tx>, ev: Event<Tx>, t: State<Tx>) -> bool {
    match ev {
        Event::Message { msg, auth } => processes(s, msg, auth, t),
        Event::Batch(b) => t == State {
            sync: SyncState { pending: s.sync.pending.push(b), ..s.sync },
            ..s
        },
        Event::Timer(p) => t == State { sync: s.sync.committed(*p), ..s },
        _ => t == s,
    }
}

/// What comes after an event.
pub open spec fn next_of<Tx>(ev: Event<Tx>) -> Next {
    match ev {
        Event::Misfire => Next::Wait,
        Event::Closed => Next::Stop,
        _ => Next::Propose,
    }
}

/// Handles one event.
pub fn react<Tx>(ev: Event<Tx>, cx: &mut Context<Tx>) -> (r: Result<Next, Halt>)
    requires
        old(cx)@.sync.inv(),
    ensures
        match r {
            Ok(next) => goes(old(cx)@, ev, final(cx)@) && next == next_of(ev)
                && final(cx)@.sync.inv(),
            Err(h) => match ev {
                Event::Message { msg: ProtocolMsg::NewProposal(p, b, batch), .. } => batch_fits(
                    *b,
                    batch,
                ) && !old(cx)@.sync.storage.delivered.contains_key(b.hash) && old(
                    cx,
                )@.sync.judged(*p, *b) == Err::<bool, Halt>(h),
                Event::Message { msg: ProtocolMsg::VoteMsg(c, p), .. } => vote_counts(
                    old(cx)@,
                    *c,
                    *p,
                ) == Err::<bool, Halt>(h),
                _ => false,
            },
        },
{
    match ev {
        Event::Message { msg, auth } => match process_msg(cx, msg, auth) {
            Err(h) => Err(h),
            Ok(()) => Ok(Next::Propose),
        },
        Event::Batch(b) => {
            cx.sync.pending_batches.push_back(b);
            Ok(Next::Propose)
        },
        Event::Timer(p) => {
            on_commit(&*p, &mut cx.sync);
            Ok(Next::Propose)
        },
        Event::TimersDone => Ok(Next::Propose),
        Event::Misfire => Ok(Next::Wait),
        Event::Closed => Ok(Next::Stop),
    }
}

/// Whether this node is to propose: it leads, the last block seen is certified, and a batch
/// waits.
pub open spec fn is_to_propose<Tx>(s: SyncState<Tx>) -> bool {
    &&& s.last_leader == s.myid
    &&& s.cert_map.contains_key(s.last_seen.hash)
    &&& s.pending.len() > 0
}

/// The batch of the next block, if this node is to propose.
pub fn next_batch<Tx>(cx: &mut Context<Tx>) -> (r: Option<HashedBatch<Tx>>)
    requires
        old(cx)@.sync.inv(),
    ensures
        final(cx)@.sync.inv(),
        r == (if is_to_propose(old(cx)@.sync) {
            Some(old(cx)@.sync.pending[0])
        } else {
            None
        }),
        final(cx)@ == (if is_to_propose(old(cx)@.sync) {
            State {
                sync: SyncState { pending: old(cx)@.sync.pending.skip(1), ..old(cx)@.sync },
                ..old(cx)@
            }
        } else {
            old(cx)@
        }),
{
    if cx.sync.next_leader() == cx.sync.myid && cx.sync.cert_map.contains_key(
        cx.sync.last_seen_block.hash,
    ) {
        let r = cx.sync.pending_batches.pop_front();
        proof {
            if r is Some {
                assert(cx@.sync.pending =~= old(cx)@.sync.pending.skip(1));
            } else {
                assert(cx@.sync.pending =~= old(cx)@.sync.pending);
            }
        }
        r
    } else {
        None
    }
}

} // verus!
