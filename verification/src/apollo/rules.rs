//! What each thing that happens does to an Apollo node, case by case.

use crate::apollo::commit::settled;
use crate::apollo::proposal::admitted;
use crate::apollo::reactor::{all_buffered, reacted, Event, Next};
use crate::apollo::state::{
    lemma_accepted_inv, lemma_received_inv, lemma_received_keeps, lemma_unblocked, Arrival, State,
};
use crate::apollo::types::{Action, Halt, Propose, ProtocolMsg};
use crate::chain::block::{Block, Round};
use crate::chain::storage::{
    ancestor, are_uncommitted, law_ancestors_commit_together, law_commit_adds_ancestors,
    law_missing_ancestor_stops_commit, StorageState,
};
use crate::digest::Digest;
use crate::mempool::batch::CachedBatch;
use crate::mempool::messages::BatcherConsensusMsg;
use crate::mempool::processor::HashedBatch;
use crate::mempool::tx::Replica;
use std::collections::VecDeque;
use std::sync::Arc;
use vstd::prelude::*;

verus! {

/// Whether no other block of the author is filed at the height of a block.
pub open spec fn alone_at_height<Tx>(s: State<Tx>, b: Block) -> bool {
    forall|other: Arc<Block>|
        s.storage.by_height.contains_key(b.header.height)
            && #[trigger] s.storage.by_height[b.header.height] == other && other.header.author
            == b.header.author ==> other.hash == b.hash
}

/// When a node accepts the proposal of a round beyond the first `num_faults`, what commits is the
/// block that was accepted `num_faults` rounds back with all its uncommitted ancestors, and nothing
/// else. They settle the oldest first: after the next leader and the batcher have heard of the
/// proposal, and before the next round begins.
pub proof fn law_commit_is_num_faults_rounds_back<Tx>(
    s: State<Tx>,
    p: Arc<Propose>,
    b: Arc<Block>,
    due: Arc<Propose>,
    n: nat,
)
    requires
        s.inv(),
        p.round == s.round,
        s.num_faults < s.round < u64::MAX,
        alone_at_height(s, *b),
        due == s.by_round.insert(s.round, p)[(s.round - s.num_faults) as Round],
        are_uncommitted(s.storage.delivered, s.storage.committed.dom(), due.block_hash, n),
    ensures
        s.accepted(p, b) is Ok,
        ({
            let t = s.accepted(p, b)->Ok_0;
            let next: Replica = if s.leader + 1 == s.num_nodes {
                0
            } else {
                (s.leader + 1) as Replica
            };
            let relay = if next == s.myid {
                Seq::<Action<Tx>>::empty()
            } else {
                seq![Action::Send { to: next, msg: ProtocolMsg::Relay(s.myid, p) }]
            };
            &&& forall|d: Digest| #[trigger]
                t.storage.committed.contains_key(d) <==> s.storage.committed.contains_key(d)
                    || exists|k: nat|
                    k < n && #[trigger] ancestor(s.storage.delivered, due.block_hash, k) == d
            &&& forall|d: Digest| #[trigger]
                s.storage.committed.contains_key(d) ==> t.storage.committed[d]
                    == s.storage.committed[d]
            &&& forall|k: nat|
                k < n ==> t.storage.committed[#[trigger] ancestor(
                    s.storage.delivered,
                    due.block_hash,
                    k,
                )] == s.storage.delivered[ancestor(s.storage.delivered, due.block_hash, k)]
            &&& t.storage.delivered == s.storage.delivered
            &&& t.storage.by_height == s.storage.by_height
            &&& t.outbox == s.outbox + relay + seq![Action::Admit { block: b, round: s.round }]
                + Seq::new(
                n,
                |i: int|
                    Action::Settle(
                        s.storage.delivered[ancestor(
                            s.storage.delivered,
                            due.block_hash,
                            (n - 1 - i) as nat,
                        )],
                    ),
            ) + seq![
                Action::CollectHandlers,
                Action::ToBatcher(
                    BatcherConsensusMsg::NewRound { leader: next, round: (s.round + 1) as Round },
                ),
            ]
            &&& t == State {
                round: (s.round + 1) as Round,
                leader: next,
                last_seen: b,
                by_round: s.by_round.insert(s.round, p),
                by_hash: s.by_hash.insert(p.block_hash, p),
                storage: t.storage,
                outbox: t.outbox,
                ..s
            }
        }),
{
    let h = due.block_hash;
    law_commit_adds_ancestors(s.storage, h, n);
    law_ancestors_commit_together(s.storage.delivered, s.storage.committed.dom(), h, n);
    let t = s.accepted(p, b)->Ok_0;
    let next: Replica = if s.leader + 1 == s.num_nodes {
        0
    } else {
        (s.leader + 1) as Replica
    };
    let relay = if next == s.myid {
        Seq::<Action<Tx>>::empty()
    } else {
        seq![Action::Send { to: next, msg: ProtocolMsg::Relay(s.myid, p) }]
    };
    assert(t.outbox =~= s.outbox + relay + seq![Action::Admit { block: b, round: s.round }]
        + Seq::new(
        n,
        |i: int|
            Action::Settle(
                s.storage.delivered[ancestor(s.storage.delivered, h, (n - 1 - i) as nat)],
            ),
    ) + seq![
        Action::CollectHandlers,
        Action::ToBatcher(
            BatcherConsensusMsg::NewRound { leader: next, round: (s.round + 1) as Round },
        ),
    ]);
}

/// In the first `num_faults` rounds nothing commits.
pub proof fn law_nothing_commits_early<Tx>(s: State<Tx>, p: Arc<Propose>, b: Arc<Block>)
    requires
        s.inv(),
        p.round == s.round,
        s.round <= s.num_faults,
        s.round < u64::MAX,
        alone_at_height(s, *b),
    ensures
        s.accepted(p, b) is Ok,
        ({
            let t = s.accepted(p, b)->Ok_0;
            let next: Replica = if s.leader + 1 == s.num_nodes {
                0
            } else {
                (s.leader + 1) as Replica
            };
            let relay = if next == s.myid {
                Seq::<Action<Tx>>::empty()
            } else {
                seq![Action::Send { to: next, msg: ProtocolMsg::Relay(s.myid, p) }]
            };
            &&& t.storage == s.storage
            &&& t.outbox == s.outbox + relay + seq![
                Action::Admit { block: b, round: s.round },
                Action::CollectHandlers,
                Action::ToBatcher(
                    BatcherConsensusMsg::NewRound { leader: next, round: (s.round + 1) as Round },
                ),
            ]
            &&& t == State {
                round: (s.round + 1) as Round,
                leader: next,
                last_seen: b,
                by_round: s.by_round.insert(s.round, p),
                by_hash: s.by_hash.insert(p.block_hash, p),
                outbox: t.outbox,
                ..s
            }
        }),
{
}

/// A node does not go on where it would have to commit a block with a missing ancestor, nor where
/// there is no further round.
pub proof fn law_accepting_halts<Tx>(
    s: State<Tx>,
    p: Arc<Propose>,
    b: Arc<Block>,
    due: Arc<Propose>,
    n: nat,
)
    requires
        s.inv(),
        p.round == s.round,
        s.num_faults < s.round,
        alone_at_height(s, *b),
        due == s.by_round.insert(s.round, p)[(s.round - s.num_faults) as Round],
        forall|k: nat|
            k < n ==> s.storage.delivered.contains_key(
                #[trigger] ancestor(s.storage.delivered, due.block_hash, k),
            ),
    ensures
        !s.storage.delivered.contains_key(ancestor(s.storage.delivered, due.block_hash, n)) && (
        forall|k: nat|
            k <= n ==> !s.storage.committed.contains_key(
                #[trigger] ancestor(s.storage.delivered, due.block_hash, k),
            )) ==> s.accepted(p, b) == Err::<State<Tx>, Halt>(Halt::BrokenChain),
        are_uncommitted(s.storage.delivered, s.storage.committed.dom(), due.block_hash, n)
            && s.round == u64::MAX ==> s.accepted(p, b) == Err::<State<Tx>, Halt>(Halt::Overflow),
{
    let d = s.storage.delivered;
    let c = s.storage.committed.dom();
    let h = due.block_hash;
    if !d.contains_key(ancestor(d, h, n)) && (forall|k: nat|
        k <= n ==> !s.storage.committed.contains_key(#[trigger] ancestor(d, h, k))) {
        assert forall|k: nat| k <= n implies !c.contains(#[trigger] ancestor(d, h, k)) by {
            assert(!s.storage.committed.contains_key(ancestor(d, h, k)));
        }
        law_missing_ancestor_stops_commit(d, c, h, n);
    }
    if are_uncommitted(d, c, h, n) {
        law_ancestors_commit_together(d, c, h, n);
    }
}

/// A block whose author has another block filed at the same height is passed over: nothing is
/// accepted, sent or committed.
pub proof fn law_equivocation_is_passed_over<Tx>(
    s: State<Tx>,
    p: Arc<Propose>,
    b: Arc<Block>,
    other: Arc<Block>,
)
    requires
        s.storage.by_height.contains_key(b.header.height),
        s.storage.by_height[b.header.height] == other,
        other.header.author == b.header.author,
        other.hash != b.hash,
    ensures
        s.accepted(p, b) == Ok::<State<Tx>, Halt>(s),
{
}

/// A proposal from an earlier round changes nothing; one for a later round is kept for it, with
/// the node to ask for more; and the leader's proposal for this round is accepted.
pub proof fn law_proposal_waits_for_its_round<Tx>(
    s: State<Tx>,
    p: Arc<Propose>,
    b: Arc<Block>,
    from: Replica,
)
    ensures
        p.round < s.round ==> s.received(p, b, from) == Ok::<State<Tx>, Halt>(s),
        p.round > s.round ==> s.received(p, b, from) == Ok::<State<Tx>, Halt>(
            State { future: s.future.insert(p.round, (from, p)), ..s },
        ),
        p.round == s.round && b.hash == p.block_hash && p.origin == s.leader && b.header.author
            == s.leader && (p.signed || p.origin == s.myid) ==> s.received(p, b, from)
            == s.accepted(p, b),
{
}

/// A proposal that comes with its block and batch is looked at only if none was accepted for its
/// round and the hashes agree. The batch is then kept and the block filed; if the parent is missing
/// the proposal waits for it, and the sender is asked for the parent.
pub proof fn law_arrival<Tx>(
    s: State<Tx>,
    from: Replica,
    p: Arc<Propose>,
    b: Arc<Block>,
    batch: HashedBatch<Tx>,
)
    ensures
        s.by_round.contains_key(p.round) || b.hash != p.block_hash || batch.hash != b.batch_hash
            ==> s.checked_with_block(from, p, b, batch) == Ok::<State<Tx>, Halt>(s),
        !s.by_round.contains_key(p.round) && b.hash == p.block_hash && batch.hash == b.batch_hash
            && !s.storage.delivered.contains_key(b.header.prev) ==> {
            &&& s.checked_with_block(from, p, b, batch) is Ok
            &&& {
                let t = s.checked_with_block(from, p, b, batch)->Ok_0;
                let ask = if from == s.myid {
                    Seq::<Action<Tx>>::empty()
                } else {
                    seq![
                        Action::Send {
                            to: from,
                            msg: ProtocolMsg::Request(s.myid, s.req_ctr, b.header.prev),
                        },
                    ]
                };
                &&& t.outbox == s.outbox + seq![Action::Persist(batch)] + ask
                &&& t.storage.delivered == s.storage.delivered.insert(b.hash, b)
                &&& t.storage.by_height == s.storage.by_height.insert(b.header.height, b)
                &&& t.storage.committed == s.storage.committed
                &&& t == State {
                    waiting_parent: s.waiting_parent.insert(b.header.prev, p),
                    storage: t.storage,
                    outbox: t.outbox,
                    ..s
                }
            }
        },
{
    if !s.by_round.contains_key(p.round) && b.hash == p.block_hash && batch.hash == b.batch_hash
        && !s.storage.delivered.contains_key(b.header.prev) {
        let t = s.checked_with_block(from, p, b, batch)->Ok_0;
        let ask = if from == s.myid {
            Seq::<Action<Tx>>::empty()
        } else {
            seq![
                Action::Send {
                    to: from,
                    msg: ProtocolMsg::Request(s.myid, s.req_ctr, b.header.prev),
                },
            ]
        };
        assert(t.outbox =~= s.outbox + seq![Action::Persist(batch)] + ask);
    }
}

/// The leader's proposal is accepted when it comes: if its block and batch are those it is for, its
/// parent is here, its author has no other block at the height, and what is to commit is all here,
/// the node goes on to a later round, with this proposal as the one of the round that is over.
pub proof fn law_good_proposal_is_accepted<Tx>(
    s: State<Tx>,
    from: Replica,
    p: Arc<Propose>,
    b: Arc<Block>,
    batch: HashedBatch<Tx>,
    due: Arc<Propose>,
    n: nat,
)
    requires
        s.inv(),
        p.round == s.round,
        s.round < u64::MAX,
        !s.by_round.contains_key(s.round),
        b.hash == p.block_hash,
        batch.hash == b.batch_hash,
        p.origin == s.leader,
        b.header.author == s.leader,
        p.signed || p.origin == s.myid,
        s.storage.delivered.contains_key(b.header.prev),
        s.num_faults < s.round ==> due == s.by_round.insert(s.round, p)[(s.round
            - s.num_faults) as Round] && are_uncommitted(
            s.storage.delivered.insert(b.hash, b),
            s.storage.committed.dom(),
            due.block_hash,
            n,
        ),
        s.checked_with_block(from, p, b, batch) is Ok,
    ensures
        ({
            let t = s.checked_with_block(from, p, b, batch)->Ok_0;
            &&& t.round > s.round
            &&& t.by_round.contains_key(s.round)
            &&& t.by_round[s.round] == p
            &&& s.num_faults < s.round ==> forall|k: nat|
                k < n ==> t.storage.committed.contains_key(
                    #[trigger] ancestor(s.storage.delivered.insert(b.hash, b), due.block_hash, k),
                )
        }),
{
    let u = s.with_action(Action::Persist(batch));
    let v = State { storage: u.storage.deliver(b), ..u };
    assert(v.inv());
    let d = v.storage.delivered;
    assert(d == s.storage.delivered.insert(b.hash, b));
    assert(alone_at_height(v, *b));
    if s.num_faults < s.round {
        law_commit_is_num_faults_rounds_back(v, p, b, due, n);
    } else {
        law_nothing_commits_early(v, p, b);
    }
    let w = v.accepted(p, b)->Ok_0;
    lemma_accepted_inv(v, p, b);
    let x = State { waiting: w.waiting.remove(p.block_hash), ..w };
    let t = s.checked_with_block(from, p, b, batch)->Ok_0;
    assert(x.unblocked(from, p.block_hash) == Ok::<State<Tx>, Halt>(t));
    lemma_unblocked(x, from, p.block_hash);
    lemma_unblocked_keeps(x, from, p.block_hash);
    assert(x.by_round.contains_key(s.round) && x.by_round[s.round] == p);
    assert(t.by_round.contains_key(s.round));
    if s.num_faults < s.round {
        assert forall|k: nat| k < n implies t.storage.committed.contains_key(
            #[trigger] ancestor(d, due.block_hash, k),
        ) by {
            assert(w.storage.committed.contains_key(ancestor(d, due.block_hash, k)));
        }
    }
}

/// Accepted proposals and commits stay.
proof fn lemma_unblocked_keeps<Tx>(s: State<Tx>, from: Replica, h: Digest)
    requires
        s.inv(),
    ensures
        s.unblocked(from, h) is Ok ==> s.storage.committed.dom().subset_of(
            s.unblocked(from, h)->Ok_0.storage.committed.dom(),
        ),
        s.unblocked(from, h) is Ok ==> forall|r: Round|
            r < s.round && s.by_round.contains_key(r) ==> #[trigger] s.unblocked(
                from,
                h,
            )->Ok_0.by_round.contains_key(r) && s.unblocked(from, h)->Ok_0.by_round[r]
                == s.by_round[r],
    decreases s.waiting_parent.dom().len(),
{
    if s.waiting_parent.contains_key(h) {
        let p = s.waiting_parent[h];
        let u = State { waiting_parent: s.waiting_parent.remove(h), ..s };
        let b = u.storage.delivered[p.block_hash];
        lemma_received_keeps(u, p, b, from);
        lemma_received_inv(u, p, b, from);
        if u.received(p, b, from) is Ok {
            let v = u.received(p, b, from)->Ok_0;
            if p.round == u.round && u.round > u.num_faults {
                let x = u.by_round.insert(p.round, p)[(u.round - u.num_faults) as Round];
                crate::chain::storage::lemma_with_committed(
                    u.storage.committed,
                    u.storage.commits(x.block_hash)->0,
                );
            }
            assert(u.storage.committed.dom().subset_of(v.storage.committed.dom()));
            lemma_unblocked_keeps(v, from, p.block_hash);
            if v.unblocked(from, p.block_hash) is Ok {
                let t = v.unblocked(from, p.block_hash)->Ok_0;
                assert forall|r: Round| r < s.round && s.by_round.contains_key(
                    r,
                ) implies #[trigger] t.by_round.contains_key(r) && t.by_round[r]
                    == s.by_round[r] by {
                    assert(v.by_round.contains_key(r) && v.by_round[r] == s.by_round[r]);
                    assert(t.by_round.contains_key(r));
                }
                assert(s.unblocked(from, h) == Ok::<State<Tx>, Halt>(t));
                assert(s.storage.committed.dom().subset_of(t.storage.committed.dom()));
            }
        }
    }
}

/// A proposal that comes without its block is passed over if one was accepted for its round. If
/// its block is not here it waits for it, and the sender is asked for the block; if the block is
/// here it is delivered at once.
pub proof fn law_relayed<Tx>(s: State<Tx>, from: Replica, p: Arc<Propose>)
    ensures
        s.by_round.contains_key(p.round) ==> s.checked(from, p) == Ok::<State<Tx>, Halt>(s),
        !s.by_round.contains_key(p.round) && !s.storage.delivered.contains_key(p.block_hash) ==> {
            &&& s.checked(from, p) is Ok
            &&& from != s.myid ==> s.checked(from, p)->Ok_0 == (State {
                waiting: s.waiting.insert(p.block_hash, p),
                outbox: s.outbox.push(
                    Action::Send {
                        to: from,
                        msg: ProtocolMsg::Request(s.myid, s.req_ctr, p.block_hash),
                    },
                ),
                ..s
            })
            &&& from == s.myid ==> s.checked(from, p)->Ok_0 == (State {
                waiting: s.waiting.insert(p.block_hash, p),
                ..s
            })
        },
        !s.by_round.contains_key(p.round) && s.storage.delivered.contains_key(p.block_hash)
            ==> s.checked(from, p) == s.delivered(from, p, s.storage.delivered[p.block_hash]),
{
}

/// Nothing that is ready is left lying: once a block has been followed up on, no proposal waits for
/// it; and a node that has caught up keeps no proposal for the round it is in.
pub proof fn law_nothing_ready_is_left<Tx>(s: State<Tx>, from: Replica, h: Digest)
    requires
        s.inv(),
    ensures
        s.unblocked(from, h) matches Ok(t) ==> !t.waiting_parent.contains_key(h),
        s.caught_up() matches Ok(t) ==> !t.future.contains_key(t.round),
{
    lemma_unblocked_takes(s, from, h, h);
    lemma_caught_up_takes(s);
}

proof fn lemma_unblocked_takes<Tx>(s: State<Tx>, from: Replica, h: Digest, d: Digest)
    requires
        s.inv(),
    ensures
        s.unblocked(from, h) matches Ok(t) ==> {
            &&& !s.waiting_parent.contains_key(d) || d == h ==> !t.waiting_parent.contains_key(d)
        },
    decreases s.waiting_parent.dom().len(),
{
    if s.waiting_parent.contains_key(h) {
        let p = s.waiting_parent[h];
        let u = State { waiting_parent: s.waiting_parent.remove(h), ..s };
        let b = u.storage.delivered[p.block_hash];
        lemma_received_keeps(u, p, b, from);
        lemma_received_inv(u, p, b, from);
        if u.received(p, b, from) is Ok {
            lemma_unblocked_takes(u.received(p, b, from)->Ok_0, from, p.block_hash, d);
        }
    }
}

proof fn lemma_caught_up_takes<Tx>(s: State<Tx>)
    requires
        s.inv(),
    ensures
        s.caught_up() matches Ok(t) ==> !t.future.contains_key(t.round),
    decreases s.future.dom().len() + s.waiting_parent.dom().len(), s.future.dom().len(),
{
    if s.future.contains_key(s.round) {
        let (from, p) = s.future[s.round];
        let u = State { future: s.future.remove(s.round), ..s };
        crate::apollo::state::lemma_checked_inv(u, from, p);
        crate::apollo::state::lemma_checked_measure(u, from, p);
        if u.checked(from, p) is Ok {
            lemma_caught_up_takes(u.checked(from, p)->Ok_0);
        }
    }
}

/// A node that waits for a parent goes on once the parent comes: the proposal that waited for it is
/// looked at next.
pub proof fn law_waiting_proposal_follows<Tx>(
    s: State<Tx>,
    from: Replica,
    h: Digest,
    p: Arc<Propose>,
)
    requires
        s.inv(),
        s.waiting_parent.contains_key(h),
        s.waiting_parent[h] == p,
    ensures
        ({
            let u = State { waiting_parent: s.waiting_parent.remove(h), ..s };
            match u.received(p, s.storage.delivered[p.block_hash], from) {
                Err(halt) => s.unblocked(from, h) == Err::<State<Tx>, Halt>(halt),
                Ok(v) => s.unblocked(from, h) == v.unblocked(from, p.block_hash),
            }
        }),
{
}

/// A request is answered if and only if the proposal of the block was accepted and the block is
/// here; whatever is answered is the proposal and the block with the hash that was asked for.
pub proof fn law_request_is_answered<Tx>(s: State<Tx>, from: Replica, req_id: u64, h: Digest)
    ensures
        s.by_hash.contains_key(h) && s.storage.delivered.contains_key(h) ==> s.requested(
            from,
            req_id,
            h,
        ) == (State {
            outbox: s.outbox.push(
                Action::Serve {
                    to: from,
                    req_id,
                    prop: s.by_hash[h],
                    block: s.storage.delivered[h],
                },
            ),
            ..s
        }),
        !s.by_hash.contains_key(h) || !s.storage.delivered.contains_key(h) ==> s.requested(
            from,
            req_id,
            h,
        ) == s,
{
}

/// Of the other messages, requests are answered in turn, blames are handed on, and anything else
/// changes nothing.
pub proof fn law_other_messages_in_turn<Tx>(
    s: State<Tx>,
    before: Seq<ProtocolMsg<Tx>>,
    msg: ProtocolMsg<Tx>,
)
    ensures
        s.heard(Seq::empty()) == s,
        msg matches ProtocolMsg::Request(from, req_id, h) ==> s.heard(before.push(msg)) == s.heard(
            before,
        ).requested(from, req_id, h),
        msg matches ProtocolMsg::Blame(b) ==> s.heard(before.push(msg)) == (State {
            outbox: s.heard(before).outbox.push(Action::Blame(b)),
            ..s.heard(before)
        }),
        msg !is Request && msg !is Blame ==> s.heard(before.push(msg)) == s.heard(before),
{
    assert(before.push(msg).drop_last() =~= before);
}

/// Messages are sorted as they come, each kind in its order: proposals with their blocks, whether
/// the leader sent them or they answer a request; relays; and the rest. A leader's own proposal is
/// asked about at the node that signed it, any other at the node that sent it.
pub proof fn law_messages_are_sorted<Tx>(
    s: State<Tx>,
    before: Seq<ProtocolMsg<Tx>>,
    msg: ProtocolMsg<Tx>,
)
    ensures
        all_buffered(s, Seq::empty()) == s,
        ({
            let u = all_buffered(s, before);
            let t = all_buffered(s, before.push(msg));
            match msg {
                ProtocolMsg::NewProposal(p, b, batch) => t == State {
                    prop_buf: u.prop_buf.push(
                        Arrival { from: p.origin, prop: p, block: b, batch },
                    ),
                    ..u
                },
                ProtocolMsg::Response(from, _, p, b, batch) => t == State {
                    prop_buf: u.prop_buf.push(Arrival { from, prop: p, block: b, batch }),
                    ..u
                },
                ProtocolMsg::Relay(from, p) => t == State {
                    relay_buf: u.relay_buf.push((from, p)),
                    ..u
                },
                ProtocolMsg::Request(_, _, _) => t == State {
                    other_buf: u.other_buf.push(msg),
                    ..u
                },
                ProtocolMsg::Blame(_) => t == State { other_buf: u.other_buf.push(msg), ..u },
            }
        }),
{
    assert(before.push(msg).drop_last() =~= before);
}

/// Proposals are looked at one after another, those with their blocks in the order they came, and
/// the relays in the order they came.
pub proof fn law_proposals_in_turn<Tx>(
    s: State<Tx>,
    before: Seq<Arrival<Tx>>,
    a: Arrival<Tx>,
    relays: Seq<(Replica, Arc<Propose>)>,
    from: Replica,
    p: Arc<Propose>,
)
    ensures
        s.checked_arrivals(Seq::empty()) == Ok::<State<Tx>, Halt>(s),
        s.checked_relays(Seq::empty()) == Ok::<State<Tx>, Halt>(s),
        s.checked_arrivals(before.push(a)) == (match s.checked_arrivals(before) {
            Ok(t) => t.checked_with_block(a.from, a.prop, a.block, a.batch),
            Err(halt) => Err(halt),
        }),
        s.checked_relays(relays.push((from, p))) == (match s.checked_relays(relays) {
            Ok(t) => t.checked(from, p),
            Err(halt) => Err(halt),
        }),
{
    assert(before.push(a).drop_last() =~= before);
    assert(relays.push((from, p)).drop_last() =~= relays);
}

/// Buffers are emptied and handled in this order: proposals with their blocks, relays, the other
/// messages, and then what was kept for the round. Whatever stops the node stops it there.
pub proof fn law_buffers_in_order<Tx>(s: State<Tx>)
    ensures
        ({
            let u = State {
                prop_buf: Seq::empty(),
                relay_buf: Seq::empty(),
                other_buf: Seq::empty(),
                ..s
            };
            match u.checked_arrivals(s.prop_buf) {
                Err(halt) => s.processed() == Err::<State<Tx>, Halt>(halt),
                Ok(v) => match v.checked_relays(s.relay_buf) {
                    Err(halt) => s.processed() == Err::<State<Tx>, Halt>(halt),
                    Ok(w) => s.processed() == w.heard(s.other_buf).caught_up(),
                },
            }
        }),
{
}

/// The block that a node would propose extends the last block it has seen; and once it has accepted
/// a proposal, its next block has that proposal's block as its parent, one below it.
pub proof fn law_own_block_extends_last_seen<Tx>(s: State<Tx>, p: Arc<Propose>, b: Arc<Block>)
    requires
        s.last_seen.header.height < u64::MAX,
    ensures
        s.next_header().prev == s.last_seen.hash,
        s.next_header().height == s.last_seen.header.height + 1,
        s.next_header().author == s.myid,
        alone_at_height(s, *b) && b.header.height < u64::MAX ==> (s.accepted(p, b) matches Ok(
            t,
        ) ==> t.next_header().prev == b.hash && t.next_header().height == b.header.height + 1
            && t.next_header().author == s.myid),
{
}

/// A node that proposes tells every other node, then the clients if they are to hear of proposals,
/// files its block, and accepts its own proposal like any other.
pub proof fn law_own_proposal<Tx>(
    s: State<Tx>,
    p: Arc<Propose>,
    b: Arc<Block>,
    batch: HashedBatch<Tx>,
    tx_hashes: Arc<Vec<Digest>>,
)
    ensures
        ({
            let told = if s.client_apollo {
                s.outbox.push(Action::Multicast(ProtocolMsg::NewProposal(p, b, batch))).push(
                    Action::NotifyClients { prop: p, block: b, tx_hashes },
                )
            } else {
                s.outbox.push(Action::Multicast(ProtocolMsg::NewProposal(p, b, batch)))
            };
            s.proposed(p, b, batch, tx_hashes) == (State {
                outbox: told,
                storage: StorageState {
                    delivered: s.storage.delivered.insert(b.hash, b),
                    by_height: s.storage.by_height.insert(b.header.height, b),
                    committed: s.storage.committed,
                },
                ..s
            }).accepted(p, b)
        }),
{
}

/// When the batch of a committed block is found its transactions count as committed, and the
/// batcher hears of it at the height of the block, then the router; without the batch nothing
/// happens. When the batch of an accepted block is found the batcher hears of it with the round.
pub proof fn law_found_batch_is_passed_on<Tx>(
    s: State<Tx>,
    b: Block,
    round: Round,
    batch: Arc<CachedBatch<Tx>>,
)
    ensures
        settled(s, b, None) == s,
        admitted(s, round, None) == s,
        settled(s, b, Some(batch)).outbox == s.outbox + seq![
            Action::ToBatcher(BatcherConsensusMsg::Committed { batch, round: b.header.height }),
            Action::ToRouter(batch),
        ],
        s.committed_txs + batch.payload@.len() <= u64::MAX ==> settled(
            s,
            b,
            Some(batch),
        ).committed_txs == s.committed_txs + batch.payload@.len(),
        s.committed_txs + batch.payload@.len() > u64::MAX ==> settled(
            s,
            b,
            Some(batch),
        ).committed_txs == u64::MAX,
        settled(s, b, Some(batch)) == (State {
            committed_txs: settled(s, b, Some(batch)).committed_txs,
            outbox: settled(s, b, Some(batch)).outbox,
            ..s
        }),
        admitted(s, round, Some(batch)) == (State {
            outbox: s.outbox.push(
                Action::ToBatcher(BatcherConsensusMsg::Proposed { batch, round }),
            ),
            ..s
        }),
{
    assert(settled(s, b, Some(batch)).outbox =~= s.outbox + seq![
        Action::ToBatcher(BatcherConsensusMsg::Committed { batch, round: b.header.height }),
        Action::ToRouter(batch),
    ]);
}

/// What an event other than a message does: at each tick the node that keeps the numbers reports
/// what has committed since the last report and counts anew; a batch joins those that wait, at the
/// end; bytes that are no message are passed over; and the end of what comes ends the node.
pub proof fn law_other_events<Tx>(s: State<Tx>, batch: HashedBatch<Tx>)
    ensures
        s.myid == s.metrics_node ==> reacted(s, Event::Tick) == Ok::<(State<Tx>, Next), Halt>(
            (State { committed_txs: 0, ..s }, Next::Propose { sample: Some(s.committed_txs) }),
        ),
        s.myid != s.metrics_node ==> reacted(s, Event::Tick) == Ok::<(State<Tx>, Next), Halt>(
            (s, Next::Propose { sample: None }),
        ),
        reacted(s, Event::Batch(batch)) == Ok::<(State<Tx>, Next), Halt>(
            (State { pending: s.pending.push(batch), ..s }, Next::Propose { sample: None }),
        ),
        reacted(s, Event::Undecodable) == Ok::<(State<Tx>, Next), Halt>((s, Next::Wait)),
        reacted(s, Event::ProtocolClosed) == Ok::<(State<Tx>, Next), Halt>((s, Next::Exit)),
        reacted(s, Event::MempoolClosed) == Ok::<(State<Tx>, Next), Halt>((s, Next::Stop)),
{
}

/// A node sends nothing to itself; a request names the node that asks, the number of the request
/// and the block; and the batcher is told of the round that it is and of who leads it.
pub proof fn law_what_is_sent<Tx>(s: State<Tx>, to: Replica, msg: ProtocolMsg<Tx>, h: Digest)
    ensures
        to == s.myid ==> s.sent(to, msg) == s && s.asked(to, h) == s,
        to != s.myid ==> s.sent(to, msg) == (State {
            outbox: s.outbox.push(Action::Send { to, msg }),
            ..s
        }),
        to != s.myid ==> s.asked(to, h) == (State {
            outbox: s.outbox.push(
                Action::Send { to, msg: ProtocolMsg::Request(s.myid, s.req_ctr, h) },
            ),
            ..s
        }),
        s.announced() == (State {
            outbox: s.outbox.push(
                Action::ToBatcher(
                    BatcherConsensusMsg::NewRound { leader: s.leader, round: s.round },
                ),
            ),
            ..s
        }),
{
}

/// The block of a proposal is filed by its hash and its height. If its parent is missing the
/// proposal waits for it, and the sender is asked for the parent. If the parent is here the
/// proposal is looked at, waits for its block no longer, and what waited for the block follows.
pub proof fn law_block_of_a_proposal<Tx>(
    s: State<Tx>,
    from: Replica,
    p: Arc<Propose>,
    b: Arc<Block>,
    batch: HashedBatch<Tx>,
)
    ensures
        ({
            let u = State {
                storage: StorageState {
                    delivered: s.storage.delivered.insert(b.hash, b),
                    by_height: s.storage.by_height.insert(b.header.height, b),
                    committed: s.storage.committed,
                },
                ..s
            };
            &&& !s.storage.delivered.contains_key(b.header.prev) ==> s.delivered(from, p, b) == Ok::<
                State<Tx>,
                Halt,
            >(
                (State {
                    waiting_parent: s.waiting_parent.insert(b.header.prev, p),
                    ..u
                }).asked(from, b.header.prev),
            )
            &&& s.storage.delivered.contains_key(b.header.prev) ==> match u.received(p, b, from) {
                Err(halt) => s.delivered(from, p, b) == Err::<State<Tx>, Halt>(halt),
                Ok(t) => s.delivered(from, p, b) == (State {
                    waiting: t.waiting.remove(p.block_hash),
                    ..t
                }).unblocked(from, p.block_hash),
            }
        }),
        !s.by_round.contains_key(p.round) && b.hash == p.block_hash && batch.hash == b.batch_hash
            ==> s.checked_with_block(from, p, b, batch) == (State {
            outbox: s.outbox.push(Action::Persist(batch)),
            ..s
        }).delivered(from, p, b),
{
}

/// The messages that have come are sorted and then handled, all of them, before the node considers
/// to propose; whatever stops the node on the way stops it.
pub proof fn law_messages_are_handled<Tx>(s: State<Tx>, msgs: VecDeque<ProtocolMsg<Tx>>)
    ensures
        match all_buffered(s, msgs@).processed() {
            Ok(t) => reacted(s, Event::Messages(msgs)) == Ok::<(State<Tx>, Next), Halt>(
                (t, Next::Propose { sample: None }),
            ),
            Err(halt) => reacted(s, Event::Messages(msgs)) == Err::<(State<Tx>, Next), Halt>(halt),
        },
{
}

} // verus!
