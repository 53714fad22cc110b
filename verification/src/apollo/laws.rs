//! What holds of an Apollo node through everything that happens to it.

use crate::apollo::reactor::{all_buffered, reacted, Event};
use crate::apollo::state::{
    lemma_accepted_inv, lemma_checked_inv, lemma_checked_measure, lemma_checked_with_block_inv,
    lemma_received_inv, lemma_received_keeps, turn, Arrival, State,
};
use crate::apollo::types::{Action, Propose, ProtocolMsg};
use crate::chain::block::{Block, Round};
use crate::chain::storage::{
    ancestor, law_chain_is_the_ancestors, law_commit_adds_ancestors, law_commit_leaves_no_gap,
    lemma_same_ancestors,
};
use crate::digest::Digest;
use crate::mempool::messages::BatcherConsensusMsg;
use crate::mempool::processor::HashedBatch;
use crate::mempool::tx::Replica;
use std::sync::Arc;
use vstd::prelude::*;

verus! {

/// Whether the committed blocks have no gap below them, down to the first block.
pub open spec fn gapless<Tx>(s: State<Tx>, genesis: Digest) -> bool {
    s.storage.closed_below(genesis) && s.storage.committed.contains_key(genesis)
}

/// Whether a node has gone on from `s` to `t` safely: nothing that had committed is gone, no
/// round was taken back, and the committed blocks still have no gap.
pub open spec fn safe_step<Tx>(s: State<Tx>, t: State<Tx>, genesis: Digest) -> bool {
    &&& s.storage.committed.dom().subset_of(t.storage.committed.dom())
    &&& s.round <= t.round
    &&& gapless(s, genesis) ==> gapless(t, genesis)
}

/// Whether the batcher is told, in one of the things to do from number `from` on, that a round
/// begins and who leads it. The leaders take turns from `leader`, who leads `round`.
pub open spec fn tells_of<Tx>(
    outbox: Seq<Action<Tx>>,
    from: nat,
    num_nodes: usize,
    leader: Replica,
    round: Round,
    r: Round,
) -> bool {
    exists|i: int|
        from <= i < outbox.len() && #[trigger] outbox[i] == Action::<Tx>::ToBatcher(
            BatcherConsensusMsg::NewRound {
                leader: turn(num_nodes, leader, (r - round) as nat),
                round: r,
            },
        )
}

/// Whether a node that has gone on from `s` to `t` told the batcher of every round on the way, and
/// still has everything else to do that it had.
pub open spec fn tells_all_rounds<Tx>(s: State<Tx>, t: State<Tx>) -> bool {
    &&& t.num_nodes == s.num_nodes
    &&& t.leader == turn(s.num_nodes, s.leader, (t.round - s.round) as nat)
    &&& s.outbox.len() <= t.outbox.len()
    &&& forall|i: int| 0 <= i < s.outbox.len() ==> t.outbox[i] == #[trigger] s.outbox[i]
    &&& forall|r: Round|
        s.round < r <= t.round ==> #[trigger] tells_of(
            t.outbox,
            s.outbox.len(),
            s.num_nodes,
            s.leader,
            s.round,
            r,
        )
}

/// Whether the block with hash `d` is the one that was accepted in round `r` or one of its
/// ancestors, `k` generations above it, all of them committed.
pub open spec fn is_below(
    by_round: Map<Round, Arc<Propose>>,
    committed: Map<Digest, Arc<Block>>,
    r: Round,
    k: nat,
    d: Digest,
) -> bool {
    &&& by_round.contains_key(r)
    &&& ancestor(committed, by_round[r].block_hash, k) == d
    &&& forall|j: nat|
        j <= k ==> committed.contains_key(
            #[trigger] ancestor(committed, by_round[r].block_hash, j),
        )
}

/// Whether every committed block but the first of all was accepted, or is an ancestor of a block
/// that was accepted, in a round that is more than `num_faults` rounds back.
pub open spec fn all_waited(
    by_round: Map<Round, Arc<Propose>>,
    committed: Map<Digest, Arc<Block>>,
    round: Round,
    num_faults: usize,
    genesis: Digest,
) -> bool {
    forall|d: Digest| #[trigger]
        committed.contains_key(d) && d != genesis ==> exists|r: Round, k: nat|
            r + num_faults < round && #[trigger] is_below(by_round, committed, r, k, d)
}

spec fn waited<Tx>(s: State<Tx>, genesis: Digest) -> bool {
    all_waited(s.by_round, s.storage.committed, s.round, s.num_faults, genesis)
}

spec fn good_step<Tx>(s: State<Tx>, t: State<Tx>, genesis: Digest) -> bool {
    &&& safe_step(s, t, genesis)
    &&& tells_all_rounds(s, t)
    &&& waited(s, genesis) ==> waited(t, genesis)
    &&& t.num_faults == s.num_faults
}

proof fn lemma_accepted_waits<Tx>(s: State<Tx>, p: Arc<Propose>, b: Arc<Block>, genesis: Digest)
    requires
        s.inv(),
        p.round == s.round,
        waited(s, genesis),
        s.accepted(p, b) is Ok,
    ensures
        waited(s.accepted(p, b)->Ok_0, genesis),
{
    let t = s.accepted(p, b)->Ok_0;
    let c = s.storage.committed;
    let c2 = t.storage.committed;
    if t.round > s.round {
        let late = s.round > s.num_faults;
        let r0 = (s.round - s.num_faults) as Round;
        let h = s.by_round.insert(s.round, p)[r0].block_hash;
        let n = if late {
            s.storage.commits(h)->0.len()
        } else {
            0
        };
        let del = s.storage.delivered;
        if late {
            law_chain_is_the_ancestors(del, c.dom(), h);
            law_commit_adds_ancestors(s.storage, h, n);
        }
        assert forall|d: Digest| #[trigger] c2.contains_key(d) && d != genesis implies exists|
            r: Round,
            k: nat,
        |
            r + t.num_faults < t.round && #[trigger] is_below(t.by_round, c2, r, k, d) by {
            if c.contains_key(d) {
                let (r, k) = choose|r: Round, k: nat|
                    r + s.num_faults < s.round && #[trigger] is_below(s.by_round, c, r, k, d);
                let g = s.by_round[r].block_hash;
                assert forall|j: nat| j <= k implies c2.contains_key(
                    #[trigger] ancestor(c2, g, j),
                ) && ancestor(c2, g, j) == ancestor(c, g, j) by {
                    assert forall|i: nat| i < j implies c2[#[trigger] ancestor(c, g, i)]
                        == c[ancestor(c, g, i)] by {
                        assert(c.contains_key(ancestor(c, g, i)));
                    }
                    lemma_same_ancestors(c, c2, g, j);
                    assert(c.contains_key(ancestor(c, g, j)));
                }
                assert(ancestor(c2, g, k) == d);
                assert(is_below(t.by_round, c2, r, k, d));
            } else {
                let k = choose|k: nat| k < n && #[trigger] ancestor(del, h, k) == d;
                assert forall|j: nat| j <= k implies c2.contains_key(
                    #[trigger] ancestor(c2, h, j),
                ) && ancestor(c2, h, j) == ancestor(del, h, j) by {
                    lemma_same_ancestors(del, c2, h, j);
                    assert(c2.contains_key(ancestor(del, h, j)));
                }
                assert(ancestor(c2, h, k) == d);
                assert(is_below(t.by_round, c2, r0, k, d));
            }
        }
    }
}

/// Turns go on where they are.
proof fn lemma_turn_on(num_nodes: usize, l: Replica, a: nat, b: nat)
    ensures
        turn(num_nodes, l, a + b) == turn(num_nodes, turn(num_nodes, l, a), b),
    decreases b,
{
    if b > 0 {
        lemma_turn_on(num_nodes, l, a, (b - 1) as nat);
    }
}

proof fn lemma_good_on<Tx>(s: State<Tx>, t: State<Tx>, u: State<Tx>, genesis: Digest)
    requires
        good_step(s, t, genesis),
        good_step(t, u, genesis),
    ensures
        good_step(s, u, genesis),
{
    let n = s.num_nodes;
    lemma_turn_on(n, s.leader, (t.round - s.round) as nat, (u.round - t.round) as nat);
    assert forall|i: int| 0 <= i < s.outbox.len() implies u.outbox[i] == #[trigger] s.outbox[i] by {
        assert(t.outbox[i] == s.outbox[i]);
    }
    assert forall|r: Round| s.round < r <= u.round implies #[trigger] tells_of(
        u.outbox,
        s.outbox.len(),
        n,
        s.leader,
        s.round,
        r,
    ) by {
        if r <= t.round {
            assert(tells_of(t.outbox, s.outbox.len(), n, s.leader, s.round, r));
            let i = choose|i: int|
                s.outbox.len() <= i < t.outbox.len() && #[trigger] t.outbox[i] == Action::<
                    Tx,
                >::ToBatcher(
                    BatcherConsensusMsg::NewRound {
                        leader: turn(n, s.leader, (r - s.round) as nat),
                        round: r,
                    },
                );
            assert(u.outbox[i] == t.outbox[i]);
        } else {
            assert(tells_of(u.outbox, t.outbox.len(), n, t.leader, t.round, r));
            lemma_turn_on(n, s.leader, (t.round - s.round) as nat, (r - t.round) as nat);
        }
    }
}

proof fn lemma_accepted_safe<Tx>(s: State<Tx>, p: Arc<Propose>, b: Arc<Block>, genesis: Digest)
    requires
        s.inv(),
        p.round == s.round,
    ensures
        s.accepted(p, b) matches Ok(t) ==> good_step(s, t, genesis),
{
    reveal_with_fuel(turn, 2);
    if s.accepted(p, b) is Ok && !s.equivocates(*b) {
        let u = s.sent(s.next_of(s.leader), ProtocolMsg::Relay(s.myid, p)).noted(p).with_action(
            Action::Admit { block: b, round: p.round },
        );
        if u.round > u.num_faults {
            let h = u.by_round[(u.round - u.num_faults) as u64].block_hash;
            let chain = u.storage.commits(h)->0;
            crate::chain::storage::lemma_with_committed(u.storage.committed, chain);
            if gapless(s, genesis) {
                law_commit_leaves_no_gap(u.storage, h, genesis);
            }
        }
        let t = s.accepted(p, b)->Ok_0;
        let last = t.outbox.len() - 1;
        assert(t.outbox[last] == Action::<Tx>::ToBatcher(
            BatcherConsensusMsg::NewRound { leader: t.leader, round: t.round },
        ));
        assert(tells_of(t.outbox, s.outbox.len(), s.num_nodes, s.leader, s.round, t.round));
        if waited(s, genesis) {
            lemma_accepted_waits(s, p, b, genesis);
        }
    }
}

proof fn lemma_received_safe<Tx>(
    s: State<Tx>,
    p: Arc<Propose>,
    b: Arc<Block>,
    from: Replica,
    genesis: Digest,
)
    requires
        s.inv(),
    ensures
        s.received(p, b, from) matches Ok(t) ==> good_step(s, t, genesis),
{
    if p.round == s.round {
        lemma_accepted_safe(s, p, b, genesis);
    }
}

proof fn lemma_unblocked_safe<Tx>(s: State<Tx>, from: Replica, h: Digest, genesis: Digest)
    requires
        s.inv(),
    ensures
        s.unblocked(from, h) matches Ok(t) ==> good_step(s, t, genesis),
    decreases s.waiting_parent.dom().len(),
{
    if s.waiting_parent.contains_key(h) {
        let p = s.waiting_parent[h];
        let u = State { waiting_parent: s.waiting_parent.remove(h), ..s };
        let b = u.storage.delivered[p.block_hash];
        lemma_received_keeps(u, p, b, from);
        lemma_received_inv(u, p, b, from);
        lemma_received_safe(u, p, b, from, genesis);
        if u.received(p, b, from) is Ok {
            let v = u.received(p, b, from)->Ok_0;
            lemma_unblocked_safe(v, from, p.block_hash, genesis);
            if v.unblocked(from, p.block_hash) is Ok {
                lemma_good_on(u, v, v.unblocked(from, p.block_hash)->Ok_0, genesis);
            }
        }
    }
}

proof fn lemma_delivered_safe<Tx>(
    s: State<Tx>,
    from: Replica,
    p: Arc<Propose>,
    b: Arc<Block>,
    genesis: Digest,
)
    requires
        s.inv(),
        b.hash == p.block_hash,
    ensures
        s.delivered(from, p, b) matches Ok(t) ==> good_step(s, t, genesis),
{
    let u = State { storage: s.storage.deliver(b), ..s };
    assert(u.inv());
    if s.storage.delivered.contains_key(b.header.prev) {
        lemma_received_inv(u, p, b, from);
        lemma_received_keeps(u, p, b, from);
        lemma_received_safe(u, p, b, from, genesis);
        if u.received(p, b, from) is Ok {
            let v = u.received(p, b, from)->Ok_0;
            let w = State { waiting: v.waiting.remove(p.block_hash), ..v };
            lemma_unblocked_safe(w, from, p.block_hash, genesis);
            if w.unblocked(from, p.block_hash) is Ok {
                lemma_good_on(u, w, w.unblocked(from, p.block_hash)->Ok_0, genesis);
            }
        }
    }
}

proof fn lemma_checked_safe<Tx>(s: State<Tx>, from: Replica, p: Arc<Propose>, genesis: Digest)
    requires
        s.inv(),
    ensures
        s.checked(from, p) matches Ok(t) ==> good_step(s, t, genesis),
{
    if s.storage.delivered.contains_key(p.block_hash) {
        lemma_delivered_safe(s, from, p, s.storage.delivered[p.block_hash], genesis);
    }
}

proof fn lemma_arrivals_safe<Tx>(s: State<Tx>, items: Seq<Arrival<Tx>>, genesis: Digest)
    requires
        s.inv(),
    ensures
        s.checked_arrivals(items) matches Ok(t) ==> good_step(s, t, genesis) && t.inv(),
    decreases items.len(),
{
    if items.len() > 0 {
        lemma_arrivals_safe(s, items.drop_last(), genesis);
        if s.checked_arrivals(items.drop_last()) is Ok {
            let u = s.checked_arrivals(items.drop_last())->Ok_0;
            let a = items.last();
            lemma_checked_with_block_inv(u, a.from, a.prop, a.block, a.batch);
            if a.block.hash == a.prop.block_hash {
                let v = u.with_action(Action::Persist(a.batch));
                lemma_delivered_safe(v, a.from, a.prop, a.block, genesis);
                assert(good_step(u, v, genesis));
                if v.delivered(a.from, a.prop, a.block) is Ok {
                    lemma_good_on(u, v, v.delivered(a.from, a.prop, a.block)->Ok_0, genesis);
                }
            }
            if s.checked_arrivals(items) is Ok {
                lemma_good_on(s, u, s.checked_arrivals(items)->Ok_0, genesis);
            }
        }
    }
}

proof fn lemma_relays_safe<Tx>(
    s: State<Tx>,
    items: Seq<(Replica, Arc<Propose>)>,
    genesis: Digest,
)
    requires
        s.inv(),
    ensures
        s.checked_relays(items) matches Ok(t) ==> good_step(s, t, genesis) && t.inv(),
    decreases items.len(),
{
    if items.len() > 0 {
        lemma_relays_safe(s, items.drop_last(), genesis);
        if s.checked_relays(items.drop_last()) is Ok {
            let u = s.checked_relays(items.drop_last())->Ok_0;
            lemma_checked_inv(u, items.last().0, items.last().1);
            lemma_checked_safe(u, items.last().0, items.last().1, genesis);
            if s.checked_relays(items) is Ok {
                lemma_good_on(s, u, s.checked_relays(items)->Ok_0, genesis);
            }
        }
    }
}

proof fn lemma_heard_safe<Tx>(s: State<Tx>, msgs: Seq<ProtocolMsg<Tx>>, genesis: Digest)
    requires
        s.inv(),
    ensures
        good_step(s, s.heard(msgs), genesis),
        s.heard(msgs).inv(),
    decreases msgs.len(),
{
    if msgs.len() > 0 {
        lemma_heard_safe(s, msgs.drop_last(), genesis);
        let u = s.heard(msgs.drop_last());
        let t = s.heard(msgs);
        assert(t == State { outbox: t.outbox, ..u });
        assert(good_step(u, t, genesis));
        lemma_good_on(s, u, t, genesis);
    }
}

proof fn lemma_caught_up_safe<Tx>(s: State<Tx>, genesis: Digest)
    requires
        s.inv(),
    ensures
        s.caught_up() matches Ok(t) ==> good_step(s, t, genesis),
    decreases s.future.dom().len() + s.waiting_parent.dom().len(), s.future.dom().len(),
{
    if s.future.contains_key(s.round) {
        let (from, p) = s.future[s.round];
        let u = State { future: s.future.remove(s.round), ..s };
        lemma_checked_inv(u, from, p);
        lemma_checked_measure(u, from, p);
        lemma_checked_safe(u, from, p, genesis);
        if u.checked(from, p) is Ok {
            let v = u.checked(from, p)->Ok_0;
            lemma_caught_up_safe(v, genesis);
            if v.caught_up() is Ok {
                lemma_good_on(u, v, v.caught_up()->Ok_0, genesis);
            }
        }
    }
}

proof fn lemma_all_buffered<Tx>(s: State<Tx>, msgs: Seq<ProtocolMsg<Tx>>)
    ensures
        ({
            let t = all_buffered(s, msgs);
            t == State {
                prop_buf: t.prop_buf,
                relay_buf: t.relay_buf,
                other_buf: t.other_buf,
                ..s
            }
        }),
    decreases msgs.len(),
{
    if msgs.len() > 0 {
        lemma_all_buffered(s, msgs.drop_last());
    }
}

proof fn lemma_reacted_good<Tx>(s: State<Tx>, ev: Event<Tx>, genesis: Digest)
    requires
        s.inv(),
    ensures
        reacted(s, ev) matches Ok((t, next)) ==> good_step(s, t, genesis),
{
    if let Event::Messages(msgs) = ev {
        let b = all_buffered(s, msgs@);
        lemma_all_buffered(s, msgs@);
        let u = State {
            prop_buf: Seq::empty(),
            relay_buf: Seq::empty(),
            other_buf: Seq::empty(),
            ..b
        };
        assert(u.inv());
        lemma_arrivals_safe(u, b.prop_buf, genesis);
        if u.checked_arrivals(b.prop_buf) is Ok {
            let v = u.checked_arrivals(b.prop_buf)->Ok_0;
            lemma_relays_safe(v, b.relay_buf, genesis);
            if v.checked_relays(b.relay_buf) is Ok {
                let w = v.checked_relays(b.relay_buf)->Ok_0;
                let x = w.heard(b.other_buf);
                lemma_heard_safe(w, b.other_buf, genesis);
                lemma_caught_up_safe(x, genesis);
                lemma_good_on(u, v, w, genesis);
                lemma_good_on(u, w, x, genesis);
                if x.caught_up() is Ok {
                    lemma_good_on(u, x, x.caught_up()->Ok_0, genesis);
                }
            }
        }
    }
}

/// Whatever happens to a node, a committed block stays committed, no round is taken back, and
/// the committed blocks have no gap: the parent of each has committed too.
pub proof fn law_commits_are_safe<Tx>(s: State<Tx>, ev: Event<Tx>, genesis: Digest)
    requires
        s.inv(),
    ensures
        reacted(s, ev) matches Ok((t, next)) ==> safe_step(s, t, genesis),
{
    lemma_reacted_good(s, ev, genesis);
}

/// Each round is announced: whatever happens to a node, the batcher hears of every round that it
/// comes to and of who leads it.
pub proof fn law_each_round_is_announced<Tx>(s: State<Tx>, ev: Event<Tx>)
    requires
        s.inv(),
    ensures
        reacted(s, ev) matches Ok((t, next)) ==> tells_all_rounds(s, t),
{
    lemma_reacted_good(s, ev, s.last_seen.hash);
}

/// A block waits for its rounds: whatever happens to a node, every committed block but the first of
/// all was accepted, or is an ancestor of a block that was accepted, in a round that is more than
/// `num_faults` rounds back.
pub proof fn law_commits_wait_for_their_rounds<Tx>(s: State<Tx>, ev: Event<Tx>, genesis: Digest)
    requires
        s.inv(),
        all_waited(s.by_round, s.storage.committed, s.round, s.num_faults, genesis),
    ensures
        reacted(s, ev) matches Ok((t, next)) ==> t.num_faults == s.num_faults && all_waited(
            t.by_round,
            t.storage.committed,
            t.round,
            s.num_faults,
            genesis,
        ),
{
    lemma_reacted_good(s, ev, genesis);
}

/// The same holds of a node's own proposals.
pub proof fn law_proposals_are_safe<Tx>(
    s: State<Tx>,
    p: Arc<Propose>,
    b: Arc<Block>,
    batch: HashedBatch<Tx>,
    tx_hashes: Arc<Vec<Digest>>,
    genesis: Digest,
)
    requires
        s.inv(),
        p.round == s.round,
        b.hash == p.block_hash,
    ensures
        s.proposed(p, b, batch, tx_hashes) matches Ok(t) ==> safe_step(s, t, genesis)
            && tells_all_rounds(s, t) && t.inv(),
        all_waited(s.by_round, s.storage.committed, s.round, s.num_faults, genesis) ==> (s.proposed(
            p,
            b,
            batch,
            tx_hashes,
        ) matches Ok(t) ==> all_waited(
            t.by_round,
            t.storage.committed,
            t.round,
            s.num_faults,
            genesis,
        )),
{
    let u = s.with_action(Action::Multicast(ProtocolMsg::NewProposal(p, b, batch)));
    let u = if s.client_apollo {
        u.with_action(Action::NotifyClients { prop: p, block: b, tx_hashes })
    } else {
        u
    };
    let v = State { storage: u.storage.deliver(b), ..u };
    assert(v.inv());
    lemma_accepted_inv(v, p, b);
    lemma_accepted_safe(v, p, b, genesis);
    assert(good_step(s, v, genesis));
    if v.accepted(p, b) is Ok {
        lemma_good_on(s, v, v.accepted(p, b)->Ok_0, genesis);
    }
}

} // verus!
