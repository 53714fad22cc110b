//! How an Apollo node reacts to what happens.

use crate::apollo::context::Context;
use crate::apollo::message::{handle_message, process_message};
use crate::apollo::state::State;
use crate::apollo::types::{Halt, ProtocolMsg};
use crate::mempool::processor::HashedBatch;
use std::collections::VecDeque;
use vstd::prelude::*;

verus! {

/// What happens to a node.
pub enum Event<Tx> {
    /// It is time to sample the throughput.
    Tick,
    /// The messages that have come from the other nodes.
    Messages(VecDeque<ProtocolMsg<Tx>>),
    /// Bytes that are no message came from another node.
    Undecodable,
    /// Nothing will come from the other nodes any more.
    ProtocolClosed,
    /// The mempool has a new batch.
    Batch(HashedBatch<Tx>),
    /// Nothing will come from the mempool any more.
    MempoolClosed,
}

/// What comes next.
pub enum Next {
    /// Propose as long as this node leads and has batches, then wait for the next event. If
    /// there is a number, report it as the transactions committed since the last report.
    Propose { sample: Option<u64> },
    /// Wait for the next event.
    Wait,
    /// End the process.
    Exit,
    /// End the reactor.
    Stop,
}

/// The node with these messages in its buffers.
pub open spec fn all_buffered<Tx>(s: State<Tx>, msgs: Seq<ProtocolMsg<Tx>>) -> State<Tx>
    decreases msgs.len(),
{
    if msgs.len() == 0 {
        s
    } else {
        all_buffered(s, msgs.drop_last()).buffered(msgs.last())
    }
}

/// The node after an event, and what comes next.
pub open spec fn reacted<Tx>(s: State<Tx>, ev: Event<Tx>) -> Result<(State<Tx>, Next), Halt> {
    match ev {
        Event::Tick => if s.myid == s.metrics_node {
            Ok(
                (
                    State { committed_txs: 0, ..s },
                    Next::Propose { sample: Some(s.committed_txs) },
                ),
            )
        } else {
            Ok((s, Next::Propose { sample: None }))
        },
        Event::Messages(msgs) => match all_buffered(s, msgs@).processed() {
            Err(halt) => Err(halt),
            Ok(t) => Ok((t, Next::Propose { sample: None })),
        },
        Event::Undecodable => Ok((s, Next::Wait)),
        Event::ProtocolClosed => Ok((s, Next::Exit)),
        Event::Batch(b) => Ok(
            (State { pending: s.pending.push(b), ..s }, Next::Propose { sample: None }),
        ),
        Event::MempoolClosed => Ok((s, Next::Stop)),
    }
}

/// Tells the batcher which round it is and who leads, before anything else happens.
pub fn start<Tx>(cx: &mut Context<Tx>)
    ensures
        final(cx)@ == old(cx)@.announced(),
{
    cx.announce_round();
}

/// Handles one event.
pub fn react<Tx>(ev: Event<Tx>, cx: &mut Context<Tx>) -> (r: Result<Next, Halt>)
    requires
        old(cx)@.inv(),
    ensures
        match r {
            Ok(next) => reacted(old(cx)@, ev) == Ok::<(State<Tx>, Next), Halt>((final(cx)@, next))
                && final(cx)@.inv(),
            Err(halt) => reacted(old(cx)@, ev) == Err::<(State<Tx>, Next), Halt>(halt),
        },
{
    match ev {
        Event::Tick => {
            if cx.myid == cx.bench_metrics_node {
                let tx: u64 = cx.bench_committed_tx_count;
                cx.bench_committed_tx_count = 0;
                Ok(Next::Propose { sample: Some(tx) })
            } else {
                Ok(Next::Propose { sample: None })
            }
        },
        Event::Messages(msgs) => {
            buffer_all(msgs, cx);
            match process_message(cx) {
                Ok(()) => Ok(Next::Propose { sample: None }),
                Err(halt) => Err(halt),
            }
        },
        Event::Undecodable => Ok(Next::Wait),
        Event::ProtocolClosed => Ok(Next::Exit),
        Event::Batch(b) => {
            cx.pending_batches.push_back(b);
            Ok(Next::Propose { sample: None })
        },
        Event::MempoolClosed => Ok(Next::Stop),
    }
}

/// Buffers these messages in turn.
fn buffer_all<Tx>(msgs: VecDeque<ProtocolMsg<Tx>>, cx: &mut Context<Tx>)
    requires
        old(cx)@.inv(),
    ensures
        final(cx)@ == all_buffered(old(cx)@, msgs@),
        final(cx)@.inv(),
{
    let ghost all = msgs@;
    let ghost s0 = cx@;
    let mut rest = msgs;
    let ghost mut n: int = 0;
    assert(all.take(0) =~= Seq::empty());
    assert(rest@ =~= all.skip(0));
    loop
        invariant
            0 <= n <= all.len(),
            rest@ == all.skip(n),
            cx@ == all_buffered(s0, all.take(n)),
            cx@.inv(),
        ensures
            cx@ == all_buffered(s0, all),
            cx@.inv(),
        decreases rest@.len(),
    {
        match rest.pop_front() {
            None => {
                assert(all.take(n) =~= all);
                break ;
            },
            Some(m) => {
                proof {
                    assert(m == all[n]);
                    assert(all.take(n + 1).drop_last() =~= all.take(n));
                    assert(all.take(n + 1).last() == m);
                    assert(rest@ =~= all.skip(n + 1));
                }
                handle_message(m, cx);
                proof {
                    n = n + 1;
                }
            },
        }
    }
}

/// The next batch to propose, if this node leads and has one.
pub fn next_batch<Tx>(cx: &mut Context<Tx>) -> (r: Option<HashedBatch<Tx>>)
    ensures
        r == (if old(cx)@.leader == old(cx)@.myid && old(cx)@.pending.len() > 0 {
            Some(old(cx)@.pending[0])
        } else {
            None
        }),
        final(cx)@ == (if r is Some {
            State { pending: old(cx)@.pending.skip(1), ..old(cx)@ }
        } else {
            old(cx)@
        }),
{
    if cx.round_leader == cx.myid {
        let r = cx.pending_batches.pop_front();
        proof {
            if r is Some {
                assert(cx@.pending =~= old(cx)@.pending.skip(1));
            } else {
                assert(cx@.pending =~= old(cx)@.pending);
            }
        }
        r
    } else {
        None
    }
}

} // verus!
