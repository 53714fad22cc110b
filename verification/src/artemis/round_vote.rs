//! The votes of the round leaders.

use crate::artemis::commit::do_commit;
use crate::artemis::context::Context;
use crate::artemis::request::do_request;
use crate::artemis::state::{lemma_received_vote_inv, lemma_voted_inv, State};
use crate::artemis::types::{Action, Halt, Metric, ProtocolMsg, UCRVote};
use crate::digest::Digest;
use crate::mempool::tx::Replica;
use std::sync::Arc;
use vstd::prelude::*;

verus! {

/// Whether this node is to vote now: it leads the round and has seen a block beyond the last
/// one voted for.
pub fn try_round_vote<Tx>(cx: &Context<Tx>) -> (r: bool)
    ensures
        r == cx@.votes(),
{
    if cx.myid != cx.round_leader {
        return false;
    }
    cx.last_seen_block.blk.header.height > cx.last_voted_block.blk.header.height
}

/// Votes for the last block seen. `auth` is this node's signature on the vote for that block, in
/// this round and view.
pub fn do_round_vote<Tx>(auth: Arc<Vec<u8>>, cx: &mut Context<Tx>) -> (r: Result<(), Halt>)
    requires
        old(cx)@.inv(),
    ensures
        ({
            let s = old(cx)@;
            let v = Arc::new(
                UCRVote {
                    hash: s.last_seen.blk.hash,
                    round: s.round,
                    view: s.view,
                    origin: s.myid,
                    auth,
                    signer: Some(s.myid),
                },
            );
            match r {
                Ok(()) => s.cast(v) == Ok::<State<Tx>, Halt>(final(cx)@) && final(cx)@.inv(),
                Err(h) => s.cast(v) == Err::<State<Tx>, Halt>(h),
            }
        }),
{
    cx.outbox.push(Action::Record(Metric::Vote));
    let v = Arc::new(
        UCRVote {
            hash: cx.last_seen_block.blk.hash,
            round: cx.round,
            view: cx.view,
            origin: cx.myid,
            auth,
            signer: Some(cx.myid),
        },
    );
    cx.multicast(ProtocolMsg::UCRVote(Arc::clone(&v)));
    on_receive_round_vote(cx, v)
}

/// A vote came from `from`. It is taken if it is for this round and its block is here.
pub fn try_receive_round_vote<Tx>(cx: &mut Context<Tx>, from: Replica, ucr_vote: Arc<UCRVote>) -> (r:
    Result<(), Halt>)
    requires
        old(cx)@.inv(),
    ensures
        match r {
            Ok(()) => old(cx)@.received_vote(from, ucr_vote) == Ok::<State<Tx>, Halt>(final(cx)@)
                && final(cx)@.inv(),
            Err(h) => old(cx)@.received_vote(from, ucr_vote) == Err::<State<Tx>, Halt>(h),
        },
{
    proof {
        lemma_received_vote_inv(cx@, from, ucr_vote);
    }
    if cx.round > ucr_vote.round {
        return Ok(());
    }
    let h: Digest = ucr_vote.hash;
    if !cx.storage.is_delivered_by_hash(&h) {
        do_request(cx, from, h);
        cx.vote_waiting.insert(h, ucr_vote);
        return Ok(());
    }
    if cx.round < ucr_vote.round {
        cx.vote_ready.insert(ucr_vote.round, ucr_vote);
        return Ok(());
    }
    on_receive_round_vote(cx, ucr_vote)
}

/// Takes the vote of this round, whose block is here: commits what is old enough, hands the
/// vote on to the next leader, and begins the next round.
pub fn on_receive_round_vote<Tx>(cx: &mut Context<Tx>, ucr_vote: Arc<UCRVote>) -> (r: Result<
    (),
    Halt,
>)
    requires
        old(cx)@.inv(),
        ucr_vote.round == old(cx)@.round,
        old(cx)@.storage.delivered.contains_key(ucr_vote.hash),
    ensures
        match r {
            Ok(()) => old(cx)@.voted(ucr_vote) == Ok::<State<Tx>, Halt>(final(cx)@)
                && final(cx)@.inv(),
            Err(h) => old(cx)@.voted(ucr_vote) == Err::<State<Tx>, Halt>(h),
        },
{
    proof {
        lemma_voted_inv(cx@, ucr_vote);
    }
    if cx.view != ucr_vote.view {
        return Ok(());
    }
    if cx.myid != cx.round_leader {
        match ucr_vote.signer {
            Some(signer) => {
                if signer != cx.round_leader {
                    return Ok(());
                }
            },
            None => {
                return Ok(());
            },
        }
    }
    cx.vote_chain.insert(ucr_vote.round, Arc::clone(&ucr_vote));
    proof {
        let r = (cx@.round - cx@.num_faults) as u64;
        if cx@.round > cx@.num_faults && r < cx@.round {
            assert(old(cx)@.vote_chain.contains_key(r));
        }
    }
    if cx.round > cx.num_faults as u64 {
        match do_commit(cx) {
            Ok(()) => {},
            Err(h) => {
                return Err(h);
            },
        }
    }
    if cx.round == u64::MAX {
        return Err(Halt::Overflow);
    }
    if let Some(b) = cx.storage.delivered_block_from_hash(&ucr_vote.hash) {
        cx.last_voted_block = b;
    }
    let next = cx.next_round_leader();
    let myid = cx.myid;
    cx.send(next, ProtocolMsg::Relay(myid, ucr_vote));
    cx.update_round()
}

/// A round is never taken back: after its vote was taken, no other vote for it, or for an
/// earlier one, changes anything.
pub proof fn law_one_vote_per_round<Tx>(s: State<Tx>, v: Arc<UCRVote>)
    requires
        s.inv(),
        v.round == s.round,
        s.is_round_leaders(v),
        s.voted(v) is Ok,
    ensures
        ({
            let t = s.voted(v)->Ok_0;
            &&& t.round == s.round + 1
            &&& t.round_leader == s.draw.next_leader(s.round)
            &&& t.vote_chain == s.vote_chain.insert(s.round, v)
            &&& forall|w: Arc<UCRVote>, from: Replica|
                w.round <= s.round ==> #[trigger] t.received_vote(from, w) == Ok::<State<Tx>, Halt>(
                    t,
                )
        }),
{
}

/// Only the round leader's vote counts: any other leaves the node as it was.
pub proof fn law_only_round_leader_counts<Tx>(s: State<Tx>, v: Arc<UCRVote>)
    requires
        v.view != s.view || (s.myid != s.round_leader && v.signer != Some(s.round_leader)),
    ensures
        s.voted(v) == Ok::<State<Tx>, Halt>(s),
{
}

} // verus!
