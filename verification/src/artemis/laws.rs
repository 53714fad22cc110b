//! What holds of an Artemis node through everything that happens to it.

use crate::artemis::leaders::{
    law_draw_keeps_everybody, law_draws_keep_everybody, law_leader_rests,
};
use crate::artemis::reactor::{all_buffered, reacted, Event};
use crate::artemis::state::{
    lemma_delivered_inv, lemma_received_vote_inv, lemma_voted_inv, lemma_voted_keeps,
    lemma_with_action_inv, State,
};
use crate::artemis::types::{Action, Metric, ProtocolMsg, SignedBlock, UCRVote};
use crate::chain::block::Round;
use crate::chain::storage::{
    ancestor, law_chain_is_the_ancestors, law_commit_adds_ancestors, law_commit_leaves_no_gap,
    lemma_same_ancestors,
};
use crate::digest::Digest;
use crate::mempool::messages::BatcherConsensusMsg;
use crate::mempool::processor::HashedBatch;
use crate::mempool::tx::Replica;
use std::sync::Arc;
use vstd::prelude::*;

verus! {

/// Whether the committed blocks have no gap below them, down to the first block.
pub open spec fn gapless<Tx>(s: State<Tx>, genesis: Digest) -> bool {
    s.storage.closed_below(genesis) && s.storage.committed.contains_key(genesis)
}

/// Whether a node has gone on from `s` to `t` safely: nothing that had committed is gone, no
/// round was taken back, and the committed blocks still have no gap.
pub open spec fn safe_step<Tx>(s: State<Tx>, t: State<Tx>, genesis: Digest) -> bool {
    &&& s.storage.committed.dom().subset_of(t.storage.committed.dom())
    &&& s.round <= t.round
    &&& gapless(s, genesis) ==> gapless(t, genesis)
}

/// Whether the block with hash `d` is the one that was voted for in round `r` or one of its
/// ancestors, `k` generations above it, all of them committed.
pub open spec fn is_below(
    vote_chain: Map<Round, Arc<UCRVote>>,
    committed: Map<Digest, Arc<SignedBlock>>,
    r: Round,
    k: nat,
    d: Digest,
) -> bool {
    &&& vote_chain.contains_key(r)
    &&& ancestor(committed, vote_chain[r].hash, k) == d
    &&& forall|j: nat|
        j <= k ==> committed.contains_key(#[trigger] ancestor(committed, vote_chain[r].hash, j))
}

/// Whether every committed block but the first of all was voted for, or is an ancestor of a block
/// that was voted for, in a round that is more than `num_faults` rounds back.
pub open spec fn all_waited(
    vote_chain: Map<Round, Arc<UCRVote>>,
    committed: Map<Digest, Arc<SignedBlock>>,
    round: Round,
    num_faults: usize,
    genesis: Digest,
) -> bool {
    forall|d: Digest| #[trigger]
        committed.contains_key(d) && d != genesis ==> exists|r: Round, k: nat|
            r + num_faults < round && #[trigger] is_below(vote_chain, committed, r, k, d)
}

spec fn waited<Tx>(s: State<Tx>, genesis: Digest) -> bool {
    all_waited(s.vote_chain, s.storage.committed, s.round, s.num_faults, genesis)
}

spec fn good_step<Tx>(s: State<Tx>, t: State<Tx>, genesis: Digest) -> bool {
    &&& safe_step(s, t, genesis)
    &&& waited(s, genesis) ==> waited(t, genesis)
    &&& t.num_faults == s.num_faults
}

proof fn lemma_voted_waits<Tx>(s: State<Tx>, v: Arc<UCRVote>, genesis: Digest)
    requires
        s.inv(),
        v.round == s.round,
        waited(s, genesis),
        s.voted(v) is Ok,
    ensures
        waited(s.voted(v)->Ok_0, genesis),
{
    let t = s.voted(v)->Ok_0;
    let c = s.storage.committed;
    let c2 = t.storage.committed;
    if t.round > s.round {
        let late = s.round > s.num_faults;
        let r0 = (s.round - s.num_faults) as Round;
        let h = s.vote_chain.insert(s.round, v)[r0].hash;
        let n = if late {
            s.storage.commits(h)->0.len()
        } else {
            0
        };
        let del = s.storage.delivered;
        if late {
            law_chain_is_the_ancestors(del, c.dom(), h);
            law_commit_adds_ancestors(s.storage, h, n);
        }
        assert forall|d: Digest| #[trigger] c2.contains_key(d) && d != genesis implies exists|
            r: Round,
            k: nat,
        |
            r + t.num_faults < t.round && #[trigger] is_below(t.vote_chain, c2, r, k, d) by {
            if c.contains_key(d) {
                let (r, k) = choose|r: Round, k: nat|
                    r + s.num_faults < s.round && #[trigger] is_below(s.vote_chain, c, r, k, d);
                let g = s.vote_chain[r].hash;
                assert forall|j: nat| j <= k implies c2.contains_key(
                    #[trigger] ancestor(c2, g, j),
                ) && ancestor(c2, g, j) == ancestor(c, g, j) by {
                    assert forall|i: nat| i < j implies c2[#[trigger] ancestor(c, g, i)]
                        == c[ancestor(c, g, i)] by {
                        assert(c.contains_key(ancestor(c, g, i)));
                    }
                    lemma_same_ancestors(c, c2, g, j);
                    assert(c.contains_key(ancestor(c, g, j)));
                }
                assert(ancestor(c2, g, k) == d);
                assert(is_below(t.vote_chain, c2, r, k, d));
            } else {
                let k = choose|k: nat| k < n && #[trigger] ancestor(del, h, k) == d;
                assert forall|j: nat| j <= k implies c2.contains_key(
                    #[trigger] ancestor(c2, h, j),
                ) && ancestor(c2, h, j) == ancestor(del, h, j) by {
                    lemma_same_ancestors(del, c2, h, j);
                    assert(c2.contains_key(ancestor(del, h, j)));
                }
                assert(ancestor(c2, h, k) == d);
                assert(is_below(t.vote_chain, c2, r0, k, d));
            }
        }
    }
}

proof fn lemma_voted_safe<Tx>(s: State<Tx>, v: Arc<UCRVote>, genesis: Digest)
    requires
        s.inv(),
        v.round == s.round,
    ensures
        s.voted(v) matches Ok(t) ==> good_step(s, t, genesis),
{
    if s.voted(v) is Ok && s.is_round_leaders(v) {
        let u = State { vote_chain: s.vote_chain.insert(v.round, v), ..s };
        if u.round > u.num_faults {
            let h = u.vote_chain[(u.round - u.num_faults) as u64].hash;
            let chain = u.storage.commits(h)->0;
            crate::chain::storage::lemma_with_committed(u.storage.committed, chain);
            if gapless(s, genesis) {
                law_commit_leaves_no_gap(u.storage, h, genesis);
            }
        }
        if waited(s, genesis) {
            lemma_voted_waits(s, v, genesis);
        }
    }
}

proof fn lemma_received_vote_safe<Tx>(
    s: State<Tx>,
    from: Replica,
    v: Arc<UCRVote>,
    genesis: Digest,
)
    requires
        s.inv(),
    ensures
        s.received_vote(from, v) matches Ok(t) ==> good_step(s, t, genesis) && t.inv(),
{
    lemma_received_vote_inv(s, from, v);
    if v.round == s.round {
        lemma_voted_safe(s, v, genesis);
    }
}

proof fn lemma_caught_up_safe<Tx>(s: State<Tx>, genesis: Digest)
    requires
        s.inv(),
    ensures
        s.caught_up() matches Ok(t) ==> good_step(s, t, genesis) && t.inv(),
    decreases s.vote_ready.dom().len(),
{
    if s.vote_ready.contains_key(s.round) {
        let v = s.vote_ready[s.round];
        let u = State { vote_ready: s.vote_ready.remove(s.round), ..s };
        assert(u.inv());
        lemma_voted_keeps(u, v);
        lemma_voted_inv(u, v);
        lemma_voted_safe(u, v, genesis);
        if u.voted(v) is Ok {
            lemma_caught_up_safe(u.voted(v)->Ok_0, genesis);
        }
    }
}

proof fn lemma_delivered_safe<Tx>(s: State<Tx>, b: Arc<SignedBlock>, genesis: Digest)
    requires
        s.inv(),
    ensures
        s.delivered(b) matches Ok(t) ==> good_step(s, t, genesis) && t.inv(),
{
    lemma_delivered_inv(s, b);
}

proof fn lemma_blocks_safe<Tx>(
    s: State<Tx>,
    items: Seq<(Arc<SignedBlock>, HashedBatch<Tx>)>,
    genesis: Digest,
)
    requires
        s.inv(),
    ensures
        s.took_blocks(items) matches Ok(t) ==> good_step(s, t, genesis) && t.inv(),
    decreases items.len(),
{
    if items.len() > 0 {
        lemma_blocks_safe(s, items.drop_last(), genesis);
        if s.took_blocks(items.drop_last()) is Ok {
            let u = s.took_blocks(items.drop_last())->Ok_0;
            let (b, batch) = items.last();
            lemma_with_action_inv(u, Action::Persist(batch));
            lemma_delivered_safe(u.with_action(Action::Persist(batch)), b, genesis);
        }
    }
}

proof fn lemma_responses_safe<Tx>(
    s: State<Tx>,
    items: Seq<(Replica, Arc<SignedBlock>, HashedBatch<Tx>)>,
    genesis: Digest,
)
    requires
        s.inv(),
    ensures
        s.took_responses(items) matches Ok(t) ==> good_step(s, t, genesis) && t.inv(),
    decreases items.len(),
{
    if items.len() > 0 {
        lemma_responses_safe(s, items.drop_last(), genesis);
        if s.took_responses(items.drop_last()) is Ok {
            let u = s.took_responses(items.drop_last())->Ok_0;
            let (from, b, batch) = items.last();
            let v = u.with_action(Action::Persist(batch));
            lemma_with_action_inv(u, Action::Persist(batch));
            lemma_delivered_safe(v, b, genesis);
            if v.updated_delivery(b, from) is Ok {
                let t = v.updated_delivery(b, from)->Ok_0;
                assert(t.inv());
            }
        }
    }
}

proof fn lemma_heard_safe<Tx>(s: State<Tx>, msgs: Seq<ProtocolMsg<Tx>>, genesis: Digest)
    requires
        s.inv(),
    ensures
        s.heard(msgs) matches Ok(t) ==> good_step(s, t, genesis) && t.inv(),
    decreases msgs.len(),
{
    if msgs.len() > 0 {
        lemma_heard_safe(s, msgs.drop_last(), genesis);
        if s.heard(msgs.drop_last()) is Ok {
            let u = s.heard(msgs.drop_last())->Ok_0;
            match msgs.last() {
                ProtocolMsg::UCRVote(v) => {
                    lemma_received_vote_safe(u, v.origin, v, genesis);
                },
                ProtocolMsg::Relay(from, v) => {
                    lemma_received_vote_safe(u, from, v, genesis);
                },
                ProtocolMsg::Request(from, req_id, h) => {
                    let t = u.requested(from, req_id, h);
                    assert(t == State { outbox: t.outbox, ..u });
                },
                ProtocolMsg::Blame(b) => {
                    lemma_with_action_inv(u, Action::Blame(b));
                },
                _ => {},
            }
        }
    }
}

proof fn lemma_all_buffered<Tx>(s: State<Tx>, msgs: Seq<ProtocolMsg<Tx>>)
    ensures
        ({
            let t = all_buffered(s, msgs);
            t == State {
                blocks: t.blocks,
                responses: t.responses,
                other_buf: t.other_buf,
                ..s
            }
        }),
    decreases msgs.len(),
{
    if msgs.len() > 0 {
        lemma_all_buffered(s, msgs.drop_last());
    }
}

proof fn lemma_reacted_good<Tx>(s: State<Tx>, ev: Event<Tx>, genesis: Digest)
    requires
        s.inv(),
    ensures
        reacted(s, ev) matches Ok((t, next)) ==> good_step(s, t, genesis),
{
    let s1 = s.with_action(Action::Record(Metric::ReactorIter));
    lemma_with_action_inv(s, Action::Record(Metric::ReactorIter));
    if let Event::Messages(msgs) = ev {
        let b = all_buffered(s1, msgs@);
        lemma_all_buffered(s1, msgs@);
        let u = State {
            blocks: Seq::empty(),
            responses: Seq::empty(),
            other_buf: Seq::empty(),
            ..b
        };
        assert(u.inv());
        lemma_blocks_safe(u, b.blocks, genesis);
        if u.took_blocks(b.blocks) is Ok {
            let v = u.took_blocks(b.blocks)->Ok_0;
            lemma_responses_safe(v, b.responses, genesis);
            if v.took_responses(b.responses) is Ok {
                let w = v.took_responses(b.responses)->Ok_0;
                lemma_caught_up_safe(w, genesis);
                if w.caught_up() is Ok {
                    let x = w.caught_up()->Ok_0;
                    lemma_heard_safe(x, b.other_buf, genesis);
                    if x.heard(b.other_buf) is Ok {
                        lemma_caught_up_safe(x.heard(b.other_buf)->Ok_0, genesis);
                    }
                }
            }
        }
    }
}

/// Whatever happens to a node, a committed block stays committed, no round is taken back, and
/// the committed blocks have no gap: the parent of each has committed too.
pub proof fn law_commits_are_safe<Tx>(s: State<Tx>, ev: Event<Tx>, genesis: Digest)
    requires
        s.inv(),
    ensures
        reacted(s, ev) matches Ok((t, next)) ==> safe_step(s, t, genesis),
{
    lemma_reacted_good(s, ev, genesis);
}

/// A block waits for its rounds: whatever happens to a node, every committed block but the first of
/// all was voted for, or is an ancestor of a block that was voted for, in a round that is more than
/// `num_faults` rounds back.
pub proof fn law_commits_wait_for_their_rounds<Tx>(s: State<Tx>, ev: Event<Tx>, genesis: Digest)
    requires
        s.inv(),
        all_waited(s.vote_chain, s.storage.committed, s.round, s.num_faults, genesis),
    ensures
        reacted(s, ev) matches Ok((t, next)) ==> t.num_faults == s.num_faults && all_waited(
            t.vote_chain,
            t.storage.committed,
            t.round,
            s.num_faults,
            genesis,
        ),
{
    lemma_reacted_good(s, ev, genesis);
}

/// The same holds of a node's own blocks and votes.
pub proof fn law_own_steps_are_safe<Tx>(
    s: State<Tx>,
    b: Arc<SignedBlock>,
    batch: HashedBatch<Tx>,
    v: Arc<UCRVote>,
    genesis: Digest,
)
    requires
        s.inv(),
    ensures
        s.proposed(b, batch) matches Ok(t) ==> safe_step(s, t, genesis),
        v.round == s.round ==> (s.cast(v) matches Ok(t) ==> safe_step(s, t, genesis)),
        all_waited(s.vote_chain, s.storage.committed, s.round, s.num_faults, genesis) ==> {
            &&& s.proposed(b, batch) matches Ok(t) ==> all_waited(
                t.vote_chain,
                t.storage.committed,
                t.round,
                s.num_faults,
                genesis,
            )
            &&& v.round == s.round ==> (s.cast(v) matches Ok(t) ==> all_waited(
                t.vote_chain,
                t.storage.committed,
                t.round,
                s.num_faults,
                genesis,
            ))
        },
{
    let p0 = s.with_action(Action::Record(Metric::Propose));
    let p1 = p0.with_action(Action::Multicast(ProtocolMsg::NewBlock(b, batch)));
    let told = Action::ToBatcher(
        BatcherConsensusMsg::Proposed { batch: batch.batch, round: b.blk.header.height },
    );
    lemma_with_action_inv(s, Action::Record(Metric::Propose));
    lemma_with_action_inv(p0, Action::Multicast(ProtocolMsg::NewBlock(b, batch)));
    lemma_with_action_inv(p1, told);
    lemma_delivered_safe(p1.with_action(told), b, genesis);
    let c0 = s.with_action(Action::Record(Metric::Vote));
    lemma_with_action_inv(s, Action::Record(Metric::Vote));
    lemma_with_action_inv(c0, Action::Multicast(ProtocolMsg::UCRVote(v)));
    if v.round == s.round {
        lemma_voted_safe(
            c0.with_action(Action::Multicast(ProtocolMsg::UCRVote(v))),
            v,
            genesis,
        );
    }
}

/// After any number of rounds one more round draws a rested leader: one that is not among the last
/// leaders. It joins them in place of the oldest, and still each node is among them or can be
/// drawn, once.
pub proof fn law_next_round_draws_rested_leader<Tx>(s: State<Tx>, k: nat)
    requires
        s.draw.inv(s.num_nodes as nat),
        s.rounds_on(k) is Ok,
        s.rounds_on(k)->Ok_0.round < u64::MAX,
    ensures
        ({
            let t = s.rounds_on(k)->Ok_0;
            let u = t.advanced()->Ok_0;
            &&& t.draw == s.draw.drawn_times(s.round, k)
            &&& t.round == s.round + k
            &&& t.draw.sound()
            &&& t.advanced() is Ok
            &&& u.round == t.round + 1
            &&& u.round_leader == t.draw.next_leader(t.round)
            &&& u.round_leader == s.draw.leader_after(s.round, k)
            &&& !t.draw.recent.contains(u.round_leader)
            &&& u.draw.recent == t.draw.recent.skip(1).push(u.round_leader)
            &&& u.draw.recent.len() == s.draw.recent.len()
            &&& u.draw.eligible.len() == s.draw.eligible.len()
            &&& u.draw.inv(s.num_nodes as nat)
        }),
{
    let n = s.num_nodes as nat;
    lemma_rounds_on(s, k);
    law_draws_keep_everybody(s.draw, s.round, n, k);
    let t = s.rounds_on(k)->Ok_0;
    law_leader_rests(t.draw, t.round, n);
    law_draw_keeps_everybody(t.draw, t.round, n);
}

/// What rounds change.
proof fn lemma_rounds_on<Tx>(s: State<Tx>, k: nat)
    requires
        s.rounds_on(k) is Ok,
    ensures
        s.rounds_on(k)->Ok_0.round == s.round + k,
        s.rounds_on(k)->Ok_0.draw == s.draw.drawn_times(s.round, k),
    decreases k,
{
    if k > 0 {
        lemma_rounds_on(s, (k - 1) as nat);
    }
}

/// When the parent of a block that came is missing, the block waits for it and the node that sent
/// the block is asked for the parent, by the parent's hash.
pub proof fn law_missing_parent_is_asked_for<Tx>(s: State<Tx>, b: Arc<SignedBlock>, from: Replica)
    requires
        !s.storage.delivered.contains_key(b.blk.hash),
        !s.storage.delivered.contains_key(b.blk.header.prev),
        !s.parent_waiting.contains_key(b.blk.header.prev),
        from != s.myid,
    ensures
        s.updated_delivery(b, from) is Ok,
        ({
            let t = s.updated_delivery(b, from)->Ok_0;
            &&& t.outbox == s.outbox.push(
                Action::Send {
                    to: from,
                    msg: ProtocolMsg::Request(s.myid, s.req_ctr, b.blk.header.prev),
                },
            )
            &&& t.parent_waiting == s.parent_waiting.insert(b.blk.header.prev, b.blk.hash)
            &&& t.undelivered == s.undelivered.insert(b.blk.hash, b)
        }),
{
}

} // verus!
