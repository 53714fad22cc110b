//! The order in which messages are handled.

use crate::artemis::context::Context;
use crate::artemis::coordinator::{check_batch_hash, do_delivery, on_receive_new_block_direct};
use crate::artemis::request::{do_request, handle_request};
use crate::artemis::round_vote::{on_receive_round_vote, try_receive_round_vote};
use crate::artemis::state::{lemma_voted_inv, lemma_voted_keeps, lemma_with_action_inv, State};
use crate::artemis::types::{Action, Halt, ProtocolMsg, SignedBlock};
use crate::digest::Digest;
use crate::mempool::processor::HashedBatch;
use crate::mempool::tx::Replica;
use std::collections::VecDeque;
use std::sync::Arc;
use vstd::prelude::*;

verus! {

/// Buffers a message: blocks of the view leader, answers, and the rest apart.
pub fn buffer_message<Tx>(message: ProtocolMsg<Tx>, cx: &mut Context<Tx>)
    ensures
        final(cx)@ == old(cx)@.buffered(message),
{
    match message {
        ProtocolMsg::Invalid => {},
        ProtocolMsg::NewBlock(b, batch) => {
            cx.block_processing_waiting.push_back((b, batch));
        },
        ProtocolMsg::Response(from, _, b, batch) => {
            cx.response_waiting.push_back((from, b, batch));
        },
        x => {
            cx.other_buf.push_back(x);
        },
    }
}

/// Handles everything that was buffered.
pub fn process_message<Tx>(cx: &mut Context<Tx>) -> (r: Result<(), Halt>)
    requires
        old(cx)@.inv(),
    ensures
        match r {
            Ok(()) => old(cx)@.processed() == Ok::<State<Tx>, Halt>(final(cx)@)
                && final(cx)@.inv(),
            Err(halt) => old(cx)@.processed() == Err::<State<Tx>, Halt>(halt),
        },
{
    let mut blocks: VecDeque<(Arc<SignedBlock>, HashedBatch<Tx>)> = VecDeque::new();
    let mut responses: VecDeque<(Replica, Arc<SignedBlock>, HashedBatch<Tx>)> = VecDeque::new();
    let mut others: VecDeque<ProtocolMsg<Tx>> = VecDeque::new();
    std::mem::swap(&mut blocks, &mut cx.block_processing_waiting);
    std::mem::swap(&mut responses, &mut cx.response_waiting);
    std::mem::swap(&mut others, &mut cx.other_buf);
    match take_blocks(blocks, cx) {
        Ok(()) => {},
        Err(halt) => {
            return Err(halt);
        },
    }
    match take_responses(responses, cx) {
        Ok(()) => {},
        Err(halt) => {
            return Err(halt);
        },
    }
    match catch_up(cx) {
        Ok(()) => {},
        Err(halt) => {
            return Err(halt);
        },
    }
    match hear(others, cx) {
        Ok(()) => {},
        Err(halt) => {
            return Err(halt);
        },
    }
    catch_up(cx)
}

/// Takes these blocks of the view leader in turn, and keeps their batches.
fn take_blocks<Tx>(
    items: VecDeque<(Arc<SignedBlock>, HashedBatch<Tx>)>,
    cx: &mut Context<Tx>,
) -> (r: Result<(), Halt>)
    requires
        old(cx)@.inv(),
    ensures
        match r {
            Ok(()) => old(cx)@.took_blocks(items@) == Ok::<State<Tx>, Halt>(final(cx)@)
                && final(cx)@.inv(),
            Err(halt) => old(cx)@.took_blocks(items@) == Err::<State<Tx>, Halt>(halt),
        },
{
    let ghost s0 = cx@;
    let ghost all = items@;
    let mut rest = items;
    let ghost mut n: int = 0;
    assert(all.take(0) =~= Seq::empty());
    assert(rest@ =~= all.skip(0));
    loop
        invariant
            0 <= n <= all.len(),
            all == items@,
            s0 == old(cx)@,
            rest@ == all.skip(n),
            cx@.inv(),
            s0.took_blocks(all.take(n)) == Ok::<State<Tx>, Halt>(cx@),
        ensures
            cx@.inv(),
            s0.took_blocks(all) == Ok::<State<Tx>, Halt>(cx@),
        decreases rest@.len(),
    {
        match rest.pop_front() {
            None => {
                assert(all.take(n) =~= all);
                break ;
            },
            Some((b, batch)) => {
                proof {
                    assert((b, batch) == all[n]);
                    assert(all.take(n + 1).drop_last() =~= all.take(n));
                    assert(all.take(n + 1).last() == (b, batch));
                    assert(rest@ =~= all.skip(n + 1));
                }
                if check_batch_hash(&*b, &batch) {
                    proof {
                        lemma_with_action_inv(cx@, Action::Persist(batch));
                    }
                    cx.outbox.push(Action::Persist(batch));
                    match on_receive_new_block_direct(cx, b) {
                        Ok(()) => {},
                        Err(halt) => {
                            proof {
                                lemma_blocks_err(s0, all, n + 1);
                            }
                            return Err(halt);
                        },
                    }
                }
                proof {
                    n = n + 1;
                }
            },
        }
    }
    Ok(())
}

/// Takes these answers in turn, and keeps their batches.
fn take_responses<Tx>(
    items: VecDeque<(Replica, Arc<SignedBlock>, HashedBatch<Tx>)>,
    cx: &mut Context<Tx>,
) -> (r: Result<(), Halt>)
    requires
        old(cx)@.inv(),
    ensures
        match r {
            Ok(()) => old(cx)@.took_responses(items@) == Ok::<State<Tx>, Halt>(final(cx)@)
                && final(cx)@.inv(),
            Err(halt) => old(cx)@.took_responses(items@) == Err::<State<Tx>, Halt>(halt),
        },
{
    let ghost s0 = cx@;
    let ghost all = items@;
    let mut rest = items;
    let ghost mut n: int = 0;
    assert(all.take(0) =~= Seq::empty());
    assert(rest@ =~= all.skip(0));
    loop
        invariant
            0 <= n <= all.len(),
            all == items@,
            s0 == old(cx)@,
            rest@ == all.skip(n),
            cx@.inv(),
            s0.took_responses(all.take(n)) == Ok::<State<Tx>, Halt>(cx@),
        ensures
            cx@.inv(),
            s0.took_responses(all) == Ok::<State<Tx>, Halt>(cx@),
        decreases rest@.len(),
    {
        match rest.pop_front() {
            None => {
                assert(all.take(n) =~= all);
                break ;
            },
            Some((from, b, batch)) => {
                proof {
                    assert((from, b, batch) == all[n]);
                    assert(all.take(n + 1).drop_last() =~= all.take(n));
                    assert(all.take(n + 1).last() == (from, b, batch));
                    assert(rest@ =~= all.skip(n + 1));
                }
                if check_batch_hash(&*b, &batch) {
                    proof {
                        lemma_with_action_inv(cx@, Action::Persist(batch));
                    }
                    cx.outbox.push(Action::Persist(batch));
                    match update_delivery(cx, b, from) {
                        Ok(()) => {},
                        Err(halt) => {
                            proof {
                                lemma_responses_err(s0, all, n + 1);
                            }
                            return Err(halt);
                        },
                    }
                }
                proof {
                    n = n + 1;
                }
            },
        }
    }
    Ok(())
}

/// Handles these other messages in turn.
fn hear<Tx>(items: VecDeque<ProtocolMsg<Tx>>, cx: &mut Context<Tx>) -> (r: Result<(), Halt>)
    requires
        old(cx)@.inv(),
    ensures
        match r {
            Ok(()) => old(cx)@.heard(items@) == Ok::<State<Tx>, Halt>(final(cx)@)
                && final(cx)@.inv(),
            Err(halt) => old(cx)@.heard(items@) == Err::<State<Tx>, Halt>(halt),
        },
{
    let ghost s0 = cx@;
    let ghost all = items@;
    let mut rest = items;
    let ghost mut n: int = 0;
    assert(all.take(0) =~= Seq::empty());
    assert(rest@ =~= all.skip(0));
    loop
        invariant
            0 <= n <= all.len(),
            all == items@,
            s0 == old(cx)@,
            rest@ == all.skip(n),
            cx@.inv(),
            s0.heard(all.take(n)) == Ok::<State<Tx>, Halt>(cx@),
        ensures
            cx@.inv(),
            s0.heard(all) == Ok::<State<Tx>, Halt>(cx@),
        decreases rest@.len(),
    {
        match rest.pop_front() {
            None => {
                assert(all.take(n) =~= all);
                break ;
            },
            Some(msg) => {
                proof {
                    assert(msg == all[n]);
                    assert(all.take(n + 1).drop_last() =~= all.take(n));
                    assert(all.take(n + 1).last() == msg);
                    assert(rest@ =~= all.skip(n + 1));
                }
                match hear_one(msg, cx) {
                    Ok(()) => {},
                    Err(halt) => {
                        proof {
                            lemma_heard_err(s0, all, n + 1);
                        }
                        return Err(halt);
                    },
                }
                proof {
                    n = n + 1;
                }
            },
        }
    }
    Ok(())
}

/// Handles one other message.
fn hear_one<Tx>(msg: ProtocolMsg<Tx>, cx: &mut Context<Tx>) -> (r: Result<(), Halt>)
    requires
        old(cx)@.inv(),
    ensures
        match r {
            Ok(()) => old(cx)@.heard_one(msg) == Ok::<State<Tx>, Halt>(final(cx)@)
                && final(cx)@.inv(),
            Err(halt) => old(cx)@.heard_one(msg) == Err::<State<Tx>, Halt>(halt),
        },
{
    match msg {
        ProtocolMsg::UCRVote(v) => {
            let from = v.origin;
            try_receive_round_vote(cx, from, v)
        },
        ProtocolMsg::Relay(from, v) => try_receive_round_vote(cx, from, v),
        ProtocolMsg::Request(from, req_id, h) => {
            handle_request(from, req_id, h, cx);
            assert(cx@ == (State { outbox: cx@.outbox, ..old(cx)@ }));
            Ok(())
        },
        ProtocolMsg::Blame(b) => {
            cx.outbox.push(Action::Blame(b));
            Ok(())
        },
        _ => Ok(()),
    }
}

/// Takes the votes that are ready for the round that the node has come to, as long as there are
/// any.
fn catch_up<Tx>(cx: &mut Context<Tx>) -> (r: Result<(), Halt>)
    requires
        old(cx)@.inv(),
    ensures
        match r {
            Ok(()) => old(cx)@.caught_up() == Ok::<State<Tx>, Halt>(final(cx)@)
                && final(cx)@.inv(),
            Err(halt) => old(cx)@.caught_up() == Err::<State<Tx>, Halt>(halt),
        },
{
    let ghost s0 = cx@;
    loop
        invariant
            s0 == old(cx)@,
            cx@.inv(),
            s0.caught_up() == cx@.caught_up(),
        ensures
            cx@.inv(),
            s0.caught_up() == Ok::<State<Tx>, Halt>(cx@),
        decreases cx@.vote_ready.dom().len(),
    {
        let ghost s1 = cx@;
        let round: u64 = cx.round;
        match cx.vote_ready.remove(round) {
            None => {
                assert(cx@ =~= s1) by {
                    assert(s1.vote_ready.remove(round) =~= s1.vote_ready);
                }
                break ;
            },
            Some(v) => {
                proof {
                    lemma_voted_keeps(cx@, v);
                    lemma_voted_inv(cx@, v);
                }
                match on_receive_round_vote(cx, v) {
                    Ok(()) => {},
                    Err(halt) => {
                        return Err(halt);
                    },
                }
            },
        }
    }
    Ok(())
}

/// Delivers a block that was asked for. If its parent is missing the block waits, and the parent
/// is asked for.
pub fn update_delivery<Tx>(cx: &mut Context<Tx>, b: Arc<SignedBlock>, sender: Replica) -> (r:
    Result<(), Halt>)
    requires
        old(cx)@.inv(),
    ensures
        match r {
            Ok(()) => old(cx)@.updated_delivery(b, sender) == Ok::<State<Tx>, Halt>(final(cx)@)
                && final(cx)@.inv(),
            Err(h) => old(cx)@.updated_delivery(b, sender) == Err::<State<Tx>, Halt>(h),
        },
{
    let h: Digest = b.blk.hash;
    let parent: Digest = b.blk.header.prev;
    if cx.storage.is_delivered_by_hash(&h) {
        return Ok(());
    }
    if cx.block_parent_waiting.contains_key(parent) {
        return Ok(());
    }
    if !cx.storage.is_delivered_by_hash(&parent) {
        cx.block_parent_waiting.insert(parent, h);
        cx.undelivered_blocks.insert(h, b);
        do_request(cx, sender, parent);
        return Ok(());
    }
    do_delivery(b, cx)
}

/// A halt on the way is a halt of the whole.
proof fn lemma_blocks_err<Tx>(
    s: State<Tx>,
    items: Seq<(Arc<SignedBlock>, HashedBatch<Tx>)>,
    n: int,
)
    requires
        0 <= n <= items.len(),
        s.took_blocks(items.take(n)) is Err,
    ensures
        s.took_blocks(items) == s.took_blocks(items.take(n)),
    decreases items.len() - n,
{
    if n < items.len() {
        assert(items.take(n + 1).drop_last() =~= items.take(n));
        lemma_blocks_err(s, items, n + 1);
    } else {
        assert(items.take(n) =~= items);
    }
}

/// A halt on the way is a halt of the whole.
proof fn lemma_responses_err<Tx>(
    s: State<Tx>,
    items: Seq<(Replica, Arc<SignedBlock>, HashedBatch<Tx>)>,
    n: int,
)
    requires
        0 <= n <= items.len(),
        s.took_responses(items.take(n)) is Err,
    ensures
        s.took_responses(items) == s.took_responses(items.take(n)),
    decreases items.len() - n,
{
    if n < items.len() {
        assert(items.take(n + 1).drop_last() =~= items.take(n));
        lemma_responses_err(s, items, n + 1);
    } else {
        assert(items.take(n) =~= items);
    }
}

/// A halt on the way is a halt of the whole.
proof fn lemma_heard_err<Tx>(s: State<Tx>, items: Seq<ProtocolMsg<Tx>>, n: int)
    requires
        0 <= n <= items.len(),
        s.heard(items.take(n)) is Err,
    ensures
        s.heard(items) == s.heard(items.take(n)),
    decreases items.len() - n,
{
    if n < items.len() {
        assert(items.take(n + 1).drop_last() =~= items.take(n));
        lemma_heard_err(s, items, n + 1);
    } else {
        assert(items.take(n) =~= items);
    }
}

} // verus!
