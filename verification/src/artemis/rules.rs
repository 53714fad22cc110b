//! What each thing that happens does to an Artemis node, case by case.

use crate::artemis::leaders::{ids, Draw};
use crate::artemis::reactor::{all_buffered, reacted, Event, Next};
use crate::artemis::state::State;
use crate::artemis::types::{
    Action, Halt, Metric, ProtocolMsg, SignedBlock, UCRVote,
};
use crate::chain::block::{Header, Round};
use crate::chain::storage::{
    ancestor, are_uncommitted, law_ancestors_commit_together, law_commit_adds_ancestors,
    law_missing_ancestor_stops_commit,
};
use crate::digest::{be_bytes, be_value, Digest};
use crate::hash::sha256;
use crate::mempool::messages::BatcherConsensusMsg;
use crate::mempool::processor::HashedBatch;
use crate::mempool::tx::Replica;
use std::collections::VecDeque;
use std::sync::Arc;
use vstd::prelude::*;

verus! {

/// Whether a vote is the round leader's: for this view, and signed by the leader unless this node
/// is the leader.
pub open spec fn by_round_leader<Tx>(s: State<Tx>, v: UCRVote) -> bool {
    v.view == s.view && (s.round_leader == s.myid || (v.signer matches Some(r) && r
        == s.round_leader))
}

/// When a node takes the vote of a round beyond the first `num_faults`, what commits is the block
/// that was voted for `num_faults` rounds back with all its uncommitted ancestors, and nothing
/// else. They settle the oldest first, each counts as a full block of transactions, the next
/// leader hears of the vote, and the next round begins.
pub proof fn law_commit_is_num_faults_rounds_back<Tx>(
    s: State<Tx>,
    v: Arc<UCRVote>,
    due: Arc<UCRVote>,
    n: nat,
)
    requires
        s.inv(),
        v.round == s.round,
        s.num_faults < s.round < u64::MAX,
        by_round_leader(s, *v),
        due == s.vote_chain.insert(s.round, v)[(s.round - s.num_faults) as Round],
        are_uncommitted(s.storage.delivered, s.storage.committed.dom(), due.hash, n),
        n * s.block_size <= u64::MAX,
    ensures
        s.voted(v) is Ok,
        ({
            let t = s.voted(v)->Ok_0;
            let next = s.draw.next_leader(s.round);
            let relay = if next == s.myid {
                Seq::<Action<Tx>>::empty()
            } else {
                seq![Action::Send { to: next, msg: ProtocolMsg::Relay(s.myid, v) }]
            };
            &&& forall|d: Digest| #[trigger]
                t.storage.committed.contains_key(d) <==> s.storage.committed.contains_key(d)
                    || exists|k: nat|
                    k < n && #[trigger] ancestor(s.storage.delivered, due.hash, k) == d
            &&& forall|d: Digest| #[trigger]
                s.storage.committed.contains_key(d) ==> t.storage.committed[d]
                    == s.storage.committed[d]
            &&& t.storage.delivered == s.storage.delivered
            &&& t.storage.by_height == s.storage.by_height
            &&& s.committed_txs + n * s.block_size <= u64::MAX ==> t.committed_txs
                == s.committed_txs + n * s.block_size
            &&& s.committed_txs + n * s.block_size > u64::MAX ==> t.committed_txs == u64::MAX
            &&& t.outbox == s.outbox + Seq::new(
                n,
                |i: int|
                    Action::Settle(
                        s.storage.delivered[ancestor(
                            s.storage.delivered,
                            due.hash,
                            (n - 1 - i) as nat,
                        )],
                    ),
            ) + relay + seq![Action::Record(Metric::RoundAdvance), Action::CollectHandlers]
            &&& t == State {
                round: (s.round + 1) as Round,
                round_leader: next,
                draw: s.draw.drawn(s.round),
                vote_chain: s.vote_chain.insert(s.round, v),
                last_voted: s.storage.delivered[v.hash],
                storage: t.storage,
                committed_txs: t.committed_txs,
                outbox: t.outbox,
                ..s
            }
        }),
{
    let h = due.hash;
    law_commit_adds_ancestors(s.storage, h, n);
    law_ancestors_commit_together(s.storage.delivered, s.storage.committed.dom(), h, n);
    let t = s.voted(v)->Ok_0;
    let next = s.draw.next_leader(s.round);
    let relay = if next == s.myid {
        Seq::<Action<Tx>>::empty()
    } else {
        seq![Action::Send { to: next, msg: ProtocolMsg::Relay(s.myid, v) }]
    };
    assert(t.outbox =~= s.outbox + Seq::new(
        n,
        |i: int|
            Action::Settle(
                s.storage.delivered[ancestor(s.storage.delivered, h, (n - 1 - i) as nat)],
            ),
    ) + relay + seq![Action::Record(Metric::RoundAdvance), Action::CollectHandlers]);
}

/// In the first `num_faults` rounds nothing commits.
pub proof fn law_nothing_commits_early<Tx>(s: State<Tx>, v: Arc<UCRVote>)
    requires
        s.inv(),
        v.round == s.round,
        s.round <= s.num_faults,
        s.round < u64::MAX,
        by_round_leader(s, *v),
    ensures
        s.voted(v) is Ok,
        ({
            let t = s.voted(v)->Ok_0;
            let next = s.draw.next_leader(s.round);
            let relay = if next == s.myid {
                Seq::<Action<Tx>>::empty()
            } else {
                seq![Action::Send { to: next, msg: ProtocolMsg::Relay(s.myid, v) }]
            };
            &&& t.outbox == s.outbox + relay + seq![
                Action::Record(Metric::RoundAdvance),
                Action::CollectHandlers,
            ]
            &&& t == State {
                round: (s.round + 1) as Round,
                round_leader: next,
                draw: s.draw.drawn(s.round),
                vote_chain: s.vote_chain.insert(s.round, v),
                last_voted: s.storage.delivered[v.hash],
                outbox: t.outbox,
                ..s
            }
        }),
{
}

/// A node does not go on where it would have to commit a block with a missing ancestor, where more
/// transactions commit at once than can be counted, nor where there is no further round.
pub proof fn law_taking_a_vote_halts<Tx>(
    s: State<Tx>,
    v: Arc<UCRVote>,
    due: Arc<UCRVote>,
    n: nat,
)
    requires
        s.inv(),
        v.round == s.round,
        s.num_faults < s.round,
        by_round_leader(s, *v),
        due == s.vote_chain.insert(s.round, v)[(s.round - s.num_faults) as Round],
        forall|k: nat|
            k < n ==> s.storage.delivered.contains_key(
                #[trigger] ancestor(s.storage.delivered, due.hash, k),
            ),
    ensures
        !s.storage.delivered.contains_key(ancestor(s.storage.delivered, due.hash, n)) && (forall|
            k: nat,
        |
            k <= n ==> !s.storage.committed.contains_key(
                #[trigger] ancestor(s.storage.delivered, due.hash, k),
            )) ==> s.voted(v) == Err::<State<Tx>, Halt>(Halt::BrokenChain),
        are_uncommitted(s.storage.delivered, s.storage.committed.dom(), due.hash, n) && (s.round
            == u64::MAX || n * s.block_size > u64::MAX) ==> s.voted(v) == Err::<State<Tx>, Halt>(
            Halt::Overflow,
        ),
{
    let d = s.storage.delivered;
    let c = s.storage.committed.dom();
    let h = due.hash;
    if !d.contains_key(ancestor(d, h, n)) && (forall|k: nat|
        k <= n ==> !s.storage.committed.contains_key(#[trigger] ancestor(d, h, k))) {
        assert forall|k: nat| k <= n implies !c.contains(#[trigger] ancestor(d, h, k)) by {
            assert(!s.storage.committed.contains_key(ancestor(d, h, k)));
        }
        law_missing_ancestor_stops_commit(d, c, h, n);
    }
    if are_uncommitted(d, c, h, n) {
        law_ancestors_commit_together(d, c, h, n);
    }
}

/// A vote from an earlier round changes nothing. One whose block is missing is kept until the block
/// comes, and its sender is asked for the block. One for a later round is kept for it. And one for
/// this round is taken.
pub proof fn law_vote_waits_for_its_round<Tx>(s: State<Tx>, from: Replica, v: Arc<UCRVote>)
    ensures
        v.round < s.round ==> s.received_vote(from, v) == Ok::<State<Tx>, Halt>(s),
        v.round >= s.round && !s.storage.delivered.contains_key(v.hash) && from != s.myid
            ==> s.received_vote(from, v) == Ok::<State<Tx>, Halt>(
            State {
                vote_waiting: s.vote_waiting.insert(v.hash, v),
                outbox: s.outbox.push(
                    Action::Send {
                        to: from,
                        msg: ProtocolMsg::Request(s.myid, s.req_ctr, v.hash),
                    },
                ),
                ..s
            },
        ),
        v.round >= s.round && !s.storage.delivered.contains_key(v.hash) && from == s.myid
            ==> s.received_vote(from, v) == Ok::<State<Tx>, Halt>(
            State { vote_waiting: s.vote_waiting.insert(v.hash, v), ..s },
        ),
        v.round > s.round && s.storage.delivered.contains_key(v.hash) ==> s.received_vote(from, v)
            == Ok::<State<Tx>, Halt>(
            State { vote_ready: s.vote_ready.insert(v.round, v), ..s },
        ),
        v.round == s.round && s.storage.delivered.contains_key(v.hash) ==> s.received_vote(from, v)
            == s.voted(v),
{
}

/// A node votes if and only if it leads the round and the last block it has seen is higher than the
/// last one voted for.
pub proof fn law_who_votes<Tx>(s: State<Tx>)
    ensures
        s.votes() <==> s.round_leader == s.myid && s.last_voted.blk.header.height
            < s.last_seen.blk.header.height,
{
}

/// A node that votes counts it, tells every other node, and takes its own vote like any other.
pub proof fn law_own_vote<Tx>(s: State<Tx>, v: Arc<UCRVote>)
    ensures
        s.cast(v) == (State {
            outbox: s.outbox.push(Action::Record(Metric::Vote)).push(
                Action::Multicast(ProtocolMsg::UCRVote(v)),
            ),
            ..s
        }).voted(v),
{
}

/// The leader of the next round is drawn from those that did not lead lately: which of them is
/// decided by the last eight bytes of the hash of the number of that round, as a number, modulo how
/// many they are. Whoever has been out the longest takes the place of the one that is drawn.
pub proof fn law_who_is_drawn(d: Draw, round: Round)
    requires
        d.eligible.len() > 0,
        d.recent.len() > 0,
    ensures
        ({
            let digest = sha256(be_bytes((round + 1) as nat, 8));
            let i = (be_value(digest.subrange(24, digest.len() as int)) % d.eligible.len()) as int;
            &&& d.next_leader(round) == d.eligible[i]
            &&& d.drawn(round).eligible == d.eligible.update(i, d.recent[0])
            &&& d.drawn(round).recent == d.recent.subrange(1, d.recent.len() as int).push(
                d.eligible[i],
            )
        }),
{
}

/// A block of the view leader is delivered if it is new, its parent is here, and it is the view
/// leader's: by it, from it, and signed by it unless this node is the view leader. Any other
/// changes nothing.
pub proof fn law_which_blocks_count<Tx>(s: State<Tx>, b: Arc<SignedBlock>)
    ensures
        !s.storage.delivered.contains_key(b.blk.hash) && s.storage.delivered.contains_key(
            b.blk.header.prev,
        ) && b.blk.header.author == s.view_leader && b.origin == s.view_leader && (s.myid
            == s.view_leader || (b.signer matches Some(r) && r == s.view_leader))
            ==> s.received_block(b) == s.delivered(b),
        s.storage.delivered.contains_key(b.blk.hash) || !s.storage.delivered.contains_key(
            b.blk.header.prev,
        ) || b.blk.header.author != s.view_leader || b.origin != s.view_leader || (s.myid
            != s.view_leader && !(b.signer matches Some(r) && r == s.view_leader))
            ==> s.received_block(b) == Ok::<State<Tx>, Halt>(s),
{
}

/// A block that was asked for is passed over if it is here already or another block waits for the
/// same parent; if its parent is here it is delivered, whoever it is from.
pub proof fn law_answer_is_delivered<Tx>(s: State<Tx>, b: Arc<SignedBlock>, from: Replica)
    ensures
        s.storage.delivered.contains_key(b.blk.hash) || s.parent_waiting.contains_key(
            b.blk.header.prev,
        ) ==> s.updated_delivery(b, from) == Ok::<State<Tx>, Halt>(s),
        !s.storage.delivered.contains_key(b.blk.hash) && !s.parent_waiting.contains_key(
            b.blk.header.prev,
        ) && s.storage.delivered.contains_key(b.blk.header.prev) ==> s.updated_delivery(b, from)
            == s.delivered(b),
{
}

/// A block that is stored is filed, and waits no longer; the last block seen is then the higher of
/// it and the one before. The vote that waited for a block becomes ready for its round.
pub proof fn law_stored_and_released<Tx>(s: State<Tx>, b: Arc<SignedBlock>, h: Digest)
    ensures
        s.stored(b).storage.delivered == s.storage.delivered.insert(b.blk.hash, b),
        s.stored(b).storage.by_height == s.storage.by_height.insert(b.blk.header.height, b),
        s.stored(b).storage.committed == s.storage.committed,
        b.blk.header.height > s.last_seen.blk.header.height ==> s.stored(b).last_seen == b,
        b.blk.header.height <= s.last_seen.blk.header.height ==> s.stored(b).last_seen
            == s.last_seen,
        s.stored(b).undelivered == s.undelivered.remove(b.blk.hash),
        s.stored(b) == (State {
            storage: s.stored(b).storage,
            last_seen: s.stored(b).last_seen,
            undelivered: s.stored(b).undelivered,
            ..s
        }),
        s.vote_waiting.contains_key(h) ==> s.released(h) == (State {
            vote_ready: s.vote_ready.insert(s.vote_waiting[h].round, s.vote_waiting[h]),
            vote_waiting: s.vote_waiting.remove(h),
            ..s
        }),
        !s.vote_waiting.contains_key(h) ==> s.released(h) == s,
{
}

/// Delivering a block for which no other waits: it is filed, the vote that waited for it is ready,
/// and if it is higher than any before it is the last one seen, and the batcher hears that the next
/// block will be one above it.
pub proof fn law_delivering_a_block<Tx>(s: State<Tx>, b: Arc<SignedBlock>)
    requires
        s.inv(),
        !s.parent_waiting.contains_key(b.blk.hash),
        b.blk.header.height < u64::MAX,
    ensures
        s.delivered(b) is Ok,
        ({
            let t = s.delivered(b)->Ok_0;
            let grew = b.blk.header.height > s.last_seen.blk.header.height;
            &&& t.storage.delivered == s.storage.delivered.insert(b.blk.hash, b)
            &&& t.storage.by_height == s.storage.by_height.insert(b.blk.header.height, b)
            &&& t.storage.committed == s.storage.committed
            &&& grew ==> t.last_seen == b && t.outbox == s.outbox.push(
                Action::ToBatcher(
                    BatcherConsensusMsg::NewRound {
                        leader: s.view_leader,
                        round: (b.blk.header.height + 1) as u64,
                    },
                ),
            )
            &&& !grew ==> t.last_seen == s.last_seen && t.outbox == s.outbox
            &&& s.vote_waiting.contains_key(b.blk.hash) ==> t.vote_ready == s.vote_ready.insert(
                s.vote_waiting[b.blk.hash].round,
                s.vote_waiting[b.blk.hash],
            ) && t.vote_waiting == s.vote_waiting.remove(b.blk.hash)
            &&& !s.vote_waiting.contains_key(b.blk.hash) ==> t.vote_ready == s.vote_ready
                && t.vote_waiting == s.vote_waiting
            &&& t == State {
                storage: t.storage,
                last_seen: t.last_seen,
                outbox: t.outbox,
                vote_ready: t.vote_ready,
                vote_waiting: t.vote_waiting,
                undelivered: s.undelivered.remove(b.blk.hash),
                ..s
            }
        }),
{
}

/// What waits for a block follows it: the block that waited for it is stored, its vote made ready,
/// and then the block that waited for that one, until none waits.
pub proof fn law_waiting_blocks_follow<Tx>(s: State<Tx>, h: Digest, child: Digest)
    requires
        s.inv(),
    ensures
        !s.parent_waiting.contains_key(h) ==> s.adopted(h) == s,
        s.parent_waiting.contains_key(h) && s.parent_waiting[h] == child
            && s.undelivered.contains_key(child) ==> s.adopted(h) == (State {
            parent_waiting: s.parent_waiting.remove(h),
            ..s
        }).stored(s.undelivered[child]).released(child).adopted(child),
        s.parent_waiting.contains_key(h) && s.parent_waiting[h] == child
            && !s.undelivered.contains_key(child) ==> s.adopted(h) == (State {
            parent_waiting: s.parent_waiting.remove(h),
            ..s
        }).released(child).adopted(child),
        !s.adopted(h).parent_waiting.contains_key(h),
{
    lemma_adopted_takes(s, h, h);
}

proof fn lemma_adopted_takes<Tx>(s: State<Tx>, h: Digest, d: Digest)
    requires
        s.parent_waiting.dom().finite(),
    ensures
        !s.parent_waiting.contains_key(d) || d == h ==> !s.adopted(h).parent_waiting.contains_key(
            d,
        ),
    decreases s.parent_waiting.dom().len(),
{
    if s.parent_waiting.contains_key(h) {
        let child = s.parent_waiting[h];
        let t = State { parent_waiting: s.parent_waiting.remove(h), ..s };
        let u = if t.undelivered.contains_key(child) {
            t.stored(t.undelivered[child])
        } else {
            t
        };
        lemma_adopted_takes(u.released(child), child, d);
    }
}

/// The block that the view leader would propose extends the last block it has seen.
pub proof fn law_own_block_extends_last_seen<Tx>(s: State<Tx>)
    requires
        s.last_seen.blk.header.height < u64::MAX,
    ensures
        s.next_header().prev == s.last_seen.blk.hash,
        s.next_header().height == s.last_seen.blk.header.height + 1,
        s.next_header().author == s.myid,
{
}

/// The blocks of the view leader form one chain: once it has put a batch in a block, as the next
/// one on the last it had seen, it has seen that block, and its next block has it as the parent,
/// one below it.
pub proof fn law_own_blocks_form_a_chain<Tx>(
    s: State<Tx>,
    b: Arc<SignedBlock>,
    batch: HashedBatch<Tx>,
)
    requires
        s.inv(),
        s.view_leader == s.myid,
        s.last_seen.blk.header.height + 1 < u64::MAX,
        b.blk.header == (Header {
            prev: s.last_seen.blk.hash,
            author: s.myid,
            height: (s.last_seen.blk.header.height + 1) as u64,
        }),
        b.origin == s.myid,
        !s.storage.delivered.contains_key(b.blk.hash),
        !s.parent_waiting.contains_key(b.blk.hash),
    ensures
        s.proposed(b, batch) is Ok,
        ({
            let t = s.proposed(b, batch)->Ok_0;
            &&& t.last_seen == b
            &&& t.next_header().prev == b.blk.hash
            &&& t.next_header().height == b.blk.header.height + 1
            &&& t.next_header().author == s.myid
            &&& t.storage.delivered == s.storage.delivered.insert(b.blk.hash, b)
            &&& t.outbox == s.outbox + seq![
                Action::Record(Metric::Propose),
                Action::Multicast(ProtocolMsg::NewBlock(b, batch)),
                Action::ToBatcher(
                    BatcherConsensusMsg::Proposed {
                        batch: batch.batch,
                        round: b.blk.header.height,
                    },
                ),
                Action::ToBatcher(
                    BatcherConsensusMsg::NewRound {
                        leader: s.myid,
                        round: (b.blk.header.height + 1) as u64,
                    },
                ),
            ]
        }),
{
    let u = State {
        outbox: s.outbox.push(Action::Record(Metric::Propose)).push(
            Action::Multicast(ProtocolMsg::NewBlock(b, batch)),
        ).push(
            Action::ToBatcher(
                BatcherConsensusMsg::Proposed { batch: batch.batch, round: b.blk.header.height },
            ),
        ),
        ..s
    };
    assert(u.inv());
    law_delivering_a_block(u, b);
    let t = s.proposed(b, batch)->Ok_0;
    assert(t == u.delivered(b)->Ok_0);
    assert(t.outbox =~= s.outbox + seq![
        Action::Record(Metric::Propose),
        Action::Multicast(ProtocolMsg::NewBlock(b, batch)),
        Action::ToBatcher(
            BatcherConsensusMsg::Proposed { batch: batch.batch, round: b.blk.header.height },
        ),
        Action::ToBatcher(
            BatcherConsensusMsg::NewRound {
                leader: s.myid,
                round: (b.blk.header.height + 1) as u64,
            },
        ),
    ]);
}

/// A request is answered if and only if the block is here, delivered or waiting; one that is
/// delivered comes first.
pub proof fn law_request_is_answered<Tx>(s: State<Tx>, from: Replica, req_id: u64, h: Digest)
    ensures
        s.storage.delivered.contains_key(h) ==> s.requested(from, req_id, h) == (State {
            outbox: s.outbox.push(
                Action::Serve { to: from, req_id, block: s.storage.delivered[h] },
            ),
            ..s
        }),
        !s.storage.delivered.contains_key(h) && s.undelivered.contains_key(h) ==> s.requested(
            from,
            req_id,
            h,
        ) == (State {
            outbox: s.outbox.push(Action::Serve { to: from, req_id, block: s.undelivered[h] }),
            ..s
        }),
        !s.storage.delivered.contains_key(h) && !s.undelivered.contains_key(h) ==> s.requested(
            from,
            req_id,
            h,
        ) == s,
{
}

/// Of the other messages, a vote is looked at as its signer's, a relayed one as the relaying
/// node's, requests are answered, blames are handed on, and anything else changes nothing; one
/// after another.
pub proof fn law_other_messages_in_turn<Tx>(
    s: State<Tx>,
    before: Seq<ProtocolMsg<Tx>>,
    msg: ProtocolMsg<Tx>,
)
    ensures
        s.heard(Seq::empty()) == Ok::<State<Tx>, Halt>(s),
        match s.heard(before) {
            Err(halt) => s.heard(before.push(msg)) == Err::<State<Tx>, Halt>(halt),
            Ok(t) => s.heard(before.push(msg)) == match msg {
                ProtocolMsg::UCRVote(v) => t.received_vote(v.origin, v),
                ProtocolMsg::Relay(from, v) => t.received_vote(from, v),
                ProtocolMsg::Request(from, req_id, h) => Ok(t.requested(from, req_id, h)),
                ProtocolMsg::Blame(b) => Ok(
                    State { outbox: t.outbox.push(Action::Blame(b)), ..t },
                ),
                ProtocolMsg::Invalid => Ok(t),
                ProtocolMsg::NewBlock(_, _) => Ok(t),
                ProtocolMsg::Response(_, _, _, _) => Ok(t),
            },
        },
{
    assert(before.push(msg).drop_last() =~= before);
}

/// Messages are sorted as they come, each kind in its order: blocks of the view leader, answers,
/// and the rest; what is no message is dropped.
pub proof fn law_messages_are_sorted<Tx>(
    s: State<Tx>,
    before: Seq<ProtocolMsg<Tx>>,
    msg: ProtocolMsg<Tx>,
)
    ensures
        all_buffered(s, Seq::empty()) == s,
        ({
            let u = all_buffered(s, before);
            let t = all_buffered(s, before.push(msg));
            match msg {
                ProtocolMsg::Invalid => t == u,
                ProtocolMsg::NewBlock(b, batch) => t == State {
                    blocks: u.blocks.push((b, batch)),
                    ..u
                },
                ProtocolMsg::Response(from, _, b, batch) => t == State {
                    responses: u.responses.push((from, b, batch)),
                    ..u
                },
                ProtocolMsg::UCRVote(_) => t == State { other_buf: u.other_buf.push(msg), ..u },
                ProtocolMsg::Relay(_, _) => t == State { other_buf: u.other_buf.push(msg), ..u },
                ProtocolMsg::Request(_, _, _) => t == State {
                    other_buf: u.other_buf.push(msg),
                    ..u
                },
                ProtocolMsg::Blame(_) => t == State { other_buf: u.other_buf.push(msg), ..u },
            }
        }),
{
    assert(before.push(msg).drop_last() =~= before);
}

/// Blocks and answers are taken one after another. One with a batch that its block does not refer
/// to is passed over; the batch of any other is kept, and then the block is looked at.
pub proof fn law_blocks_in_turn<Tx>(
    s: State<Tx>,
    blocks: Seq<(Arc<SignedBlock>, HashedBatch<Tx>)>,
    answers: Seq<(Replica, Arc<SignedBlock>, HashedBatch<Tx>)>,
    from: Replica,
    b: Arc<SignedBlock>,
    batch: HashedBatch<Tx>,
)
    ensures
        s.took_blocks(Seq::empty()) == Ok::<State<Tx>, Halt>(s),
        s.took_responses(Seq::empty()) == Ok::<State<Tx>, Halt>(s),
        match s.took_blocks(blocks) {
            Err(halt) => s.took_blocks(blocks.push((b, batch))) == Err::<State<Tx>, Halt>(halt),
            Ok(t) => {
                &&& batch.hash != b.blk.batch_hash ==> s.took_blocks(blocks.push((b, batch)))
                    == Ok::<State<Tx>, Halt>(t)
                &&& batch.hash == b.blk.batch_hash ==> s.took_blocks(blocks.push((b, batch))) == (
                State { outbox: t.outbox.push(Action::Persist(batch)), ..t }).received_block(b)
            },
        },
        match s.took_responses(answers) {
            Err(halt) => s.took_responses(answers.push((from, b, batch))) == Err::<
                State<Tx>,
                Halt,
            >(halt),
            Ok(t) => {
                &&& batch.hash != b.blk.batch_hash ==> s.took_responses(
                    answers.push((from, b, batch)),
                ) == Ok::<State<Tx>, Halt>(t)
                &&& batch.hash == b.blk.batch_hash ==> s.took_responses(
                    answers.push((from, b, batch)),
                ) == (State { outbox: t.outbox.push(Action::Persist(batch)), ..t }).updated_delivery(
                    b,
                    from,
                )
            },
        },
{
    assert(blocks.push((b, batch)).drop_last() =~= blocks);
    assert(answers.push((from, b, batch)).drop_last() =~= answers);
}

/// Buffers are emptied and handled in this order: blocks of the view leader, answers, the votes
/// that are ready, the other messages, and then the votes that are ready by now. Whatever stops
/// the node stops it there.
pub proof fn law_buffers_in_order<Tx>(s: State<Tx>)
    ensures
        ({
            let u = State {
                blocks: Seq::empty(),
                responses: Seq::empty(),
                other_buf: Seq::empty(),
                ..s
            };
            match u.took_blocks(s.blocks) {
                Err(halt) => s.processed() == Err::<State<Tx>, Halt>(halt),
                Ok(v) => match v.took_responses(s.responses) {
                    Err(halt) => s.processed() == Err::<State<Tx>, Halt>(halt),
                    Ok(w) => match w.caught_up() {
                        Err(halt) => s.processed() == Err::<State<Tx>, Halt>(halt),
                        Ok(x) => match x.heard(s.other_buf) {
                            Err(halt) => s.processed() == Err::<State<Tx>, Halt>(halt),
                            Ok(y) => s.processed() == y.caught_up(),
                        },
                    },
                },
            }
        }),
{
}

/// The vote that is ready for the round is taken, and then the one for the next round, as long as
/// there is one. A node that has caught up keeps no vote for the round it is in, and for no other
/// round than before.
pub proof fn law_ready_votes_are_taken<Tx>(s: State<Tx>)
    requires
        s.inv(),
    ensures
        !s.vote_ready.contains_key(s.round) ==> s.caught_up() == Ok::<State<Tx>, Halt>(s),
        s.vote_ready.contains_key(s.round) ==> match (State {
            vote_ready: s.vote_ready.remove(s.round),
            ..s
        }).voted(s.vote_ready[s.round]) {
            Err(halt) => s.caught_up() == Err::<State<Tx>, Halt>(halt),
            Ok(t) => s.caught_up() == t.caught_up(),
        },
        s.caught_up() matches Ok(t) ==> !t.vote_ready.contains_key(t.round)
            && t.vote_ready.dom().subset_of(s.vote_ready.dom()),
{
    lemma_caught_up_takes(s);
}

proof fn lemma_caught_up_takes<Tx>(s: State<Tx>)
    requires
        s.vote_ready.dom().finite(),
    ensures
        s.caught_up() matches Ok(t) ==> !t.vote_ready.contains_key(t.round)
            && t.vote_ready.dom().subset_of(s.vote_ready.dom()),
    decreases s.vote_ready.dom().len(),
{
    if s.vote_ready.contains_key(s.round) {
        let v = s.vote_ready[s.round];
        let u = State { vote_ready: s.vote_ready.remove(s.round), ..s };
        crate::artemis::state::lemma_voted_keeps(u, v);
        if u.voted(v) is Ok {
            lemma_caught_up_takes(u.voted(v)->Ok_0);
        }
    }
}

/// What an event other than a message does, each counted as a turn: at each tick the node that
/// keeps the numbers reports what has committed since the last report and counts anew; a batch is
/// counted and joins those that wait, at the end; bytes that are no message are passed over; and
/// the end of what comes ends the node.
pub proof fn law_other_events<Tx>(s: State<Tx>, batch: HashedBatch<Tx>)
    ensures
        ({
            let u = State { outbox: s.outbox.push(Action::Record(Metric::ReactorIter)), ..s };
            &&& s.myid == s.metrics_node ==> reacted(s, Event::Tick) == Ok::<
                (State<Tx>, Next),
                Halt,
            >((State { committed_txs: 0, ..u }, Next::Propose { sample: Some(s.committed_txs) }))
            &&& s.myid != s.metrics_node ==> reacted(s, Event::Tick) == Ok::<
                (State<Tx>, Next),
                Halt,
            >((u, Next::Propose { sample: None }))
            &&& reacted(s, Event::Batch(batch)) == Ok::<(State<Tx>, Next), Halt>(
                (
                    State {
                        pending: s.pending.push(batch),
                        outbox: u.outbox.push(Action::Record(Metric::BatchRecv)),
                        ..s
                    },
                    Next::Propose { sample: None },
                ),
            )
            &&& reacted(s, Event::Undecodable) == Ok::<(State<Tx>, Next), Halt>((u, Next::Wait))
            &&& reacted(s, Event::ProtocolClosed) == Ok::<(State<Tx>, Next), Halt>((u, Next::Exit))
            &&& reacted(s, Event::MempoolClosed) == Ok::<(State<Tx>, Next), Halt>((u, Next::Stop))
        }),
{
}

/// A node sends nothing to itself; a request names the node that asks, the number of the request
/// and the block; and the batcher is told of the height above the last block seen and of the view
/// leader, if there is such a height.
pub proof fn law_what_is_sent<Tx>(s: State<Tx>, to: Replica, msg: ProtocolMsg<Tx>, h: Digest)
    ensures
        to == s.myid ==> s.sent(to, msg) == s && s.asked(to, h) == s,
        to != s.myid ==> s.sent(to, msg) == (State {
            outbox: s.outbox.push(Action::Send { to, msg }),
            ..s
        }),
        to != s.myid ==> s.asked(to, h) == (State {
            outbox: s.outbox.push(
                Action::Send { to, msg: ProtocolMsg::Request(s.myid, s.req_ctr, h) },
            ),
            ..s
        }),
        s.last_seen.blk.header.height < u64::MAX ==> s.announced() == Ok::<State<Tx>, Halt>(
            State {
                outbox: s.outbox.push(
                    Action::ToBatcher(
                        BatcherConsensusMsg::NewRound {
                            leader: s.view_leader,
                            round: (s.last_seen.blk.header.height + 1) as u64,
                        },
                    ),
                ),
                ..s
            },
        ),
        s.last_seen.blk.header.height == u64::MAX ==> s.announced() == Err::<State<Tx>, Halt>(
            Halt::Overflow,
        ),
{
}

/// Before any draw those that have led lately are the first nodes, and the others can be drawn, all
/// in order.
pub proof fn law_first_draw(num_faults: u16, num_nodes: u16, r: Replica)
    requires
        0 < num_faults < num_nodes,
        r < num_nodes,
    ensures
        ids(0, num_faults as int).len() == num_faults,
        ids(num_faults as int, num_nodes as int).len() == num_nodes - num_faults,
        r < num_faults ==> ids(0, num_faults as int)[r as int] == r,
        r >= num_faults ==> ids(num_faults as int, num_nodes as int)[r - num_faults] == r,
{
}

/// The messages that have come are counted as a turn, sorted and then handled, all of them, before
/// the node considers to propose or to vote; whatever stops the node on the way stops it.
pub proof fn law_messages_are_handled<Tx>(s: State<Tx>, msgs: VecDeque<ProtocolMsg<Tx>>)
    ensures
        ({
            let u = State { outbox: s.outbox.push(Action::Record(Metric::ReactorIter)), ..s };
            match all_buffered(u, msgs@).processed() {
                Ok(t) => reacted(s, Event::Messages(msgs)) == Ok::<(State<Tx>, Next), Halt>(
                    (t, Next::Propose { sample: None }),
                ),
                Err(halt) => reacted(s, Event::Messages(msgs)) == Err::<(State<Tx>, Next), Halt>(
                    halt,
                ),
            }
        }),
{
}

} // verus!
