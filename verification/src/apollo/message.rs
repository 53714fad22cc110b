//! The order in which messages are handled.

use crate::apollo::context::Context;
use crate::apollo::proposal::{check_batch_hash, try_receive_proposal};
use crate::apollo::request::{do_request, on_recv_request};
use crate::apollo::state::{
    lemma_checked_inv, lemma_checked_measure, lemma_checked_with_block_inv, lemma_delivered_inv,
    lemma_received_inv, lemma_received_keeps, lemma_unblocked, Arrival, State,
};
use crate::apollo::types::{Action, Halt, Propose, ProtocolMsg};
use crate::chain::block::Block;
use crate::digest::Digest;
use crate::mempool::processor::HashedBatch;
use crate::mempool::tx::Replica;
use std::collections::VecDeque;
use std::sync::Arc;
use vstd::prelude::*;

verus! {

/// Buffers a message: proposals with blocks, relays, and the rest apart.
pub fn handle_message<Tx>(message: ProtocolMsg<Tx>, cx: &mut Context<Tx>)
    ensures
        final(cx)@ == old(cx)@.buffered(message),
{
    match message {
        ProtocolMsg::NewProposal(p, b, batch) => {
            let from = p.origin;
            cx.prop_buf.push_back(Arrival { from, prop: p, block: b, batch });
        },
        ProtocolMsg::Response(from, _, p, b, batch) => {
            cx.prop_buf.push_back(Arrival { from, prop: p, block: b, batch });
        },
        ProtocolMsg::Relay(from, p) => {
            cx.relay_buf.push_back((from, p));
        },
        x => {
            cx.other_buf.push_back(x);
        },
    }
}

/// Looks at the proposal that waited for the block with hash `h`, then at the one that waited
/// for that one's block, and so on.
fn follow_up<Tx>(sender: Replica, h: Digest, cx: &mut Context<Tx>) -> (r: Result<(), Halt>)
    requires
        old(cx)@.inv(),
    ensures
        match r {
            Ok(()) => old(cx)@.unblocked(sender, h) == Ok::<State<Tx>, Halt>(final(cx)@)
                && final(cx)@.inv(),
            Err(halt) => old(cx)@.unblocked(sender, h) == Err::<State<Tx>, Halt>(halt),
        },
{
    let ghost s0 = cx@;
    let mut cur: Digest = h;
    proof {
        lemma_unblocked(s0, sender, h);
    }
    loop
        invariant
            s0 == old(cx)@,
            cx@.inv(),
            s0.unblocked(sender, h) == cx@.unblocked(sender, cur),
        ensures
            cx@.inv(),
            s0.unblocked(sender, h) == Ok::<State<Tx>, Halt>(cx@),
        decreases cx@.waiting_parent.dom().len(),
    {
        let ghost s1 = cx@;
        match cx.prop_waiting_parent.remove(cur) {
            None => {
                assert(cx@ =~= s1) by {
                    assert(s1.waiting_parent.remove(cur) =~= s1.waiting_parent);
                }
                break ;
            },
            Some(p) => {
                let ghost s2 = cx@;
                cur = p.block_hash;
                let block = match cx.storage.delivered_block_from_hash(&p.block_hash) {
                    Some(b) => b,
                    None => {
                        assert(false);
                        return Ok(());
                    },
                };
                proof {
                    lemma_received_keeps(s2, p, block, sender);
                    lemma_received_inv(s2, p, block, sender);
                }
                match try_receive_proposal(p, block, sender, cx) {
                    Ok(()) => {},
                    Err(halt) => {
                        return Err(halt);
                    },
                }
            },
        }
    }
    Ok(())
}

/// Delivers the block of a proposal, and looks at the proposal if the block's parent is here.
fn deliver<Tx>(sender: Replica, p: Arc<Propose>, block: Arc<Block>, cx: &mut Context<Tx>) -> (r:
    Result<(), Halt>)
    requires
        old(cx)@.inv(),
        block.hash == p.block_hash,
    ensures
        match r {
            Ok(()) => old(cx)@.delivered(sender, p, block) == Ok::<State<Tx>, Halt>(final(cx)@)
                && final(cx)@.inv(),
            Err(halt) => old(cx)@.delivered(sender, p, block) == Err::<State<Tx>, Halt>(halt),
        },
{
    proof {
        lemma_delivered_inv(cx@, sender, p, block);
    }
    let parent: Digest = block.header.prev;
    if !cx.storage.is_delivered_by_hash(&parent) {
        cx.storage.add_delivered_block(block);
        cx.prop_waiting_parent.insert(parent, p);
        do_request(parent, sender, cx);
        return Ok(());
    }
    cx.storage.add_delivered_block(Arc::clone(&block));
    let block_hash: Digest = p.block_hash;
    proof {
        lemma_received_inv(cx@, p, block, sender);
    }
    match try_receive_proposal(p, block, sender, cx) {
        Ok(()) => {},
        Err(halt) => {
            return Err(halt);
        },
    }
    cx.prop_waiting.remove(block_hash);
    follow_up(sender, block_hash, cx)
}

/// Brings a proposal to where it can be looked at. If it came with its block and batch, these
/// must agree with it, and the batch is kept; otherwise the block is taken from storage, or
/// asked for.
pub fn delivery_check<Tx>(
    sender: Replica,
    p: Arc<Propose>,
    block_and_batch: Option<(Arc<Block>, HashedBatch<Tx>)>,
    cx: &mut Context<Tx>,
) -> (r: Result<(), Halt>)
    requires
        old(cx)@.inv(),
    ensures
        ({
            let outcome = match block_and_batch {
                Some((b, batch)) => old(cx)@.checked_with_block(sender, p, b, batch),
                None => old(cx)@.checked(sender, p),
            };
            match r {
                Ok(()) => outcome == Ok::<State<Tx>, Halt>(final(cx)@) && final(cx)@.inv(),
                Err(halt) => outcome == Err::<State<Tx>, Halt>(halt),
            }
        }),
{
    if cx.prop_chain_by_round.contains_key(p.round) {
        return Ok(());
    }
    match block_and_batch {
        Some((b, batch)) => {
            if b.hash != p.block_hash {
                return Ok(());
            }
            if !check_batch_hash(&*b, &batch) {
                return Ok(());
            }
            proof {
                lemma_checked_with_block_inv(cx@, sender, p, b, batch);
            }
            cx.outbox.push(Action::Persist(batch));
            deliver(sender, p, b, cx)
        },
        None => {
            proof {
                lemma_checked_inv(cx@, sender, p);
            }
            match cx.storage.delivered_block_from_hash(&p.block_hash) {
                Some(b) => deliver(sender, p, b, cx),
                None => {
                    let h: Digest = p.block_hash;
                    cx.prop_waiting.insert(h, p);
                    do_request(h, sender, cx);
                    Ok(())
                },
            }
        },
    }
}

/// Handles everything that was buffered.
pub fn process_message<Tx>(cx: &mut Context<Tx>) -> (r: Result<(), Halt>)
    requires
        old(cx)@.inv(),
    ensures
        match r {
            Ok(()) => old(cx)@.processed() == Ok::<State<Tx>, Halt>(final(cx)@)
                && final(cx)@.inv(),
            Err(halt) => old(cx)@.processed() == Err::<State<Tx>, Halt>(halt),
        },
{
    let mut props: VecDeque<Arrival<Tx>> = VecDeque::new();
    let mut relays: VecDeque<(Replica, Arc<Propose>)> = VecDeque::new();
    let mut others: VecDeque<ProtocolMsg<Tx>> = VecDeque::new();
    std::mem::swap(&mut props, &mut cx.prop_buf);
    std::mem::swap(&mut relays, &mut cx.relay_buf);
    std::mem::swap(&mut others, &mut cx.other_buf);
    match check_arrivals(props, cx) {
        Ok(()) => {},
        Err(halt) => {
            return Err(halt);
        },
    }
    match check_relays(relays, cx) {
        Ok(()) => {},
        Err(halt) => {
            return Err(halt);
        },
    }
    hear(others, cx);
    catch_up(cx)
}

/// Looks at these proposals in turn.
fn check_arrivals<Tx>(items: VecDeque<Arrival<Tx>>, cx: &mut Context<Tx>) -> (r: Result<(), Halt>)
    requires
        old(cx)@.inv(),
    ensures
        match r {
            Ok(()) => old(cx)@.checked_arrivals(items@) == Ok::<State<Tx>, Halt>(final(cx)@)
                && final(cx)@.inv(),
            Err(halt) => old(cx)@.checked_arrivals(items@) == Err::<State<Tx>, Halt>(halt),
        },
{
    let ghost s0 = cx@;
    let ghost all = items@;
    let mut rest = items;
    let ghost mut n: int = 0;
    assert(all.take(0) =~= Seq::empty());
    assert(rest@ =~= all.skip(0));
    loop
        invariant
            0 <= n <= all.len(),
            all == items@,
            s0 == old(cx)@,
            rest@ == all.skip(n),
            cx@.inv(),
            s0.checked_arrivals(all.take(n)) == Ok::<State<Tx>, Halt>(cx@),
        ensures
            cx@.inv(),
            s0.checked_arrivals(all) == Ok::<State<Tx>, Halt>(cx@),
        decreases rest@.len(),
    {
        match rest.pop_front() {
            None => {
                assert(all.take(n) =~= all);
                break ;
            },
            Some(a) => {
                proof {
                    assert(a == all[n]);
                    assert(all.take(n + 1).drop_last() =~= all.take(n));
                    assert(all.take(n + 1).last() == a);
                    assert(rest@ =~= all.skip(n + 1));
                }
                match delivery_check(a.from, a.prop, Some((a.block, a.batch)), cx) {
                    Ok(()) => {},
                    Err(halt) => {
                        proof {
                            lemma_arrivals_err(s0, all, n + 1);
                        }
                        return Err(halt);
                    },
                }
                proof {
                    n = n + 1;
                }
            },
        }
    }
    Ok(())
}

/// Looks at these relayed proposals in turn.
fn check_relays<Tx>(items: VecDeque<(Replica, Arc<Propose>)>, cx: &mut Context<Tx>) -> (r: Result<
    (),
    Halt,
>)
    requires
        old(cx)@.inv(),
    ensures
        match r {
            Ok(()) => old(cx)@.checked_relays(items@) == Ok::<State<Tx>, Halt>(final(cx)@)
                && final(cx)@.inv(),
            Err(halt) => old(cx)@.checked_relays(items@) == Err::<State<Tx>, Halt>(halt),
        },
{
    let ghost s0 = cx@;
    let ghost all = items@;
    let mut rest = items;
    let ghost mut n: int = 0;
    assert(all.take(0) =~= Seq::empty());
    assert(rest@ =~= all.skip(0));
    loop
        invariant
            0 <= n <= all.len(),
            all == items@,
            s0 == old(cx)@,
            rest@ == all.skip(n),
            cx@.inv(),
            s0.checked_relays(all.take(n)) == Ok::<State<Tx>, Halt>(cx@),
        ensures
            cx@.inv(),
            s0.checked_relays(all) == Ok::<State<Tx>, Halt>(cx@),
        decreases rest@.len(),
    {
        match rest.pop_front() {
            None => {
                assert(all.take(n) =~= all);
                break ;
            },
            Some((sender, p)) => {
                proof {
                    assert((sender, p) == all[n]);
                    assert(all.take(n + 1).drop_last() =~= all.take(n));
                    assert(all.take(n + 1).last() == (sender, p));
                    assert(rest@ =~= all.skip(n + 1));
                }
                match delivery_check(sender, p, None, cx) {
                    Ok(()) => {},
                    Err(halt) => {
                        proof {
                            lemma_relays_err(s0, all, n + 1);
                        }
                        return Err(halt);
                    },
                }
                proof {
                    n = n + 1;
                }
            },
        }
    }
    Ok(())
}

/// Handles these other messages in turn.
fn hear<Tx>(items: VecDeque<ProtocolMsg<Tx>>, cx: &mut Context<Tx>)
    requires
        old(cx)@.inv(),
    ensures
        final(cx)@ == old(cx)@.heard(items@),
        final(cx)@.inv(),
{
    let ghost s0 = cx@;
    let ghost all = items@;
    let mut rest = items;
    let ghost mut n: int = 0;
    assert(all.take(0) =~= Seq::empty());
    assert(rest@ =~= all.skip(0));
    loop
        invariant
            0 <= n <= all.len(),
            all == items@,
            s0 == old(cx)@,
            rest@ == all.skip(n),
            cx@.inv(),
            cx@ == s0.heard(all.take(n)),
        ensures
            cx@.inv(),
            cx@ == s0.heard(all),
        decreases rest@.len(),
    {
        match rest.pop_front() {
            None => {
                assert(all.take(n) =~= all);
                break ;
            },
            Some(msg) => {
                proof {
                    assert(msg == all[n]);
                    assert(all.take(n + 1).drop_last() =~= all.take(n));
                    assert(all.take(n + 1).last() == msg);
                    assert(rest@ =~= all.skip(n + 1));
                }
                let ghost s1 = cx@;
                match msg {
                    ProtocolMsg::Request(from, req_id, h) => {
                        on_recv_request(from, req_id, h, cx);
                    },
                    ProtocolMsg::Blame(b) => {
                        cx.outbox.push(Action::Blame(b));
                    },
                    _ => {},
                }
                proof {
                    lemma_heard_inv(s1, msg);
                    n = n + 1;
                }
            },
        }
    }
}

/// What the other messages do keeps the invariant.
proof fn lemma_heard_inv<Tx>(s: State<Tx>, msg: ProtocolMsg<Tx>)
    requires
        s.inv(),
    ensures
        s.heard(seq![msg]).inv(),
        s.heard(seq![msg]) == (match msg {
            ProtocolMsg::Request(from, req_id, h) => s.requested(from, req_id, h),
            ProtocolMsg::Blame(b) => s.with_action(Action::Blame(b)),
            _ => s,
        }),
{
    assert(seq![msg].drop_last() =~= Seq::empty());
    assert(s.heard(Seq::empty()) == s);
}

/// Looks at what was kept for the round that the node has come to, as long as there is
/// something.
fn catch_up<Tx>(cx: &mut Context<Tx>) -> (r: Result<(), Halt>)
    requires
        old(cx)@.inv(),
    ensures
        match r {
            Ok(()) => old(cx)@.caught_up() == Ok::<State<Tx>, Halt>(final(cx)@)
                && final(cx)@.inv(),
            Err(halt) => old(cx)@.caught_up() == Err::<State<Tx>, Halt>(halt),
        },
{
    let ghost s0 = cx@;
    loop
        invariant
            s0 == old(cx)@,
            cx@.inv(),
            s0.caught_up() == cx@.caught_up(),
        ensures
            cx@.inv(),
            s0.caught_up() == Ok::<State<Tx>, Halt>(cx@),
        decreases
                cx@.future.dom().len() + cx@.waiting_parent.dom().len(),
                cx@.future.dom().len(),
    {
        let ghost s1 = cx@;
        let round: u64 = cx.round;
        match cx.future_msgs.remove(round) {
            None => {
                assert(cx@ =~= s1) by {
                    assert(s1.future.remove(round) =~= s1.future);
                }
                break ;
            },
            Some((sender, p)) => {
                proof {
                    lemma_checked_inv(cx@, sender, p);
                    lemma_checked_measure(cx@, sender, p);
                }
                match delivery_check(sender, p, None, cx) {
                    Ok(()) => {},
                    Err(halt) => {
                        return Err(halt);
                    },
                }
            },
        }
    }
    Ok(())
}

/// A halt on the way is a halt of the whole.
proof fn lemma_arrivals_err<Tx>(s: State<Tx>, items: Seq<Arrival<Tx>>, n: int)
    requires
        0 <= n <= items.len(),
        s.checked_arrivals(items.take(n)) is Err,
    ensures
        s.checked_arrivals(items) == s.checked_arrivals(items.take(n)),
    decreases items.len() - n,
{
    if n < items.len() {
        assert(items.take(n + 1).drop_last() =~= items.take(n));
        lemma_arrivals_err(s, items, n + 1);
    } else {
        assert(items.take(n) =~= items);
    }
}

/// A halt on the way is a halt of the whole.
proof fn lemma_relays_err<Tx>(s: State<Tx>, items: Seq<(Replica, Arc<Propose>)>, n: int)
    requires
        0 <= n <= items.len(),
        s.checked_relays(items.take(n)) is Err,
    ensures
        s.checked_relays(items) == s.checked_relays(items.take(n)),
    decreases items.len() - n,
{
    if n < items.len() {
        assert(items.take(n + 1).drop_last() =~= items.take(n));
        lemma_relays_err(s, items, n + 1);
    } else {
        assert(items.take(n) =~= items);
    }
}

} // verus!
