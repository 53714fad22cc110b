//! What each thing that happens does to a Sync HotStuff node, case by case.

use crate::chain::storage::{
    ancestor, are_uncommitted, law_ancestors_commit_together, law_commit_adds_ancestors,
};
use crate::config::node::Node;
use crate::digest::Digest;
use crate::mempool::processor::HashedBatch;
use crate::mempool::tx::Replica;
use crate::synchs::context::is_fresh;
use crate::synchs::proposal::is_vote_for;
use crate::synchs::queue::{txs_of, without};
use crate::synchs::reactor::{goes, is_to_propose, next_of, Event, Next};
use crate::synchs::state::{voters, State};
use crate::synchs::types::{
    Action, Block, CertType, Certificate, Halt, Propose, ProtocolMsg, Vote,
};
use std::sync::Arc;
use vstd::prelude::*;

verus! {

/// Whether every one of these votes is signed by a node whose key is known.
pub open spec fn all_signed(keys: Set<Replica>, votes: Seq<Arc<Vote>>) -> bool {
    forall|i: int|
        0 <= i < votes.len() ==> (#[trigger] votes[i]).signed && keys.contains(votes[i].origin)
}

/// Whether these votes are by at least `n` different nodes.
pub open spec fn by_as_many(votes: Seq<Arc<Vote>>, n: int) -> bool {
    votes.map_values(|v: Arc<Vote>| v.origin).to_set().len() >= n
}

proof fn lemma_by_as_many(votes: Seq<Arc<Vote>>)
    ensures
        voters(votes) == votes.map_values(|v: Arc<Vote>| v.origin).to_set(),
{
    let origins = votes.map_values(|v: Arc<Vote>| v.origin);
    assert forall|r: Replica| voters(votes).contains(r) <==> origins.to_set().contains(r) by {
        if voters(votes).contains(r) {
            let i = choose|i: int| 0 <= i < votes.len() && (#[trigger] votes[i]).origin == r;
            assert(origins[i] == r);
        }
        if origins.contains(r) {
            let i = choose|i: int| 0 <= i < origins.len() && origins[i] == r;
            assert(votes[i].origin == r);
        }
    }
    assert(voters(votes) =~= origins.to_set());
}

/// A proposal is good if and only if it is for its block; the block is by the node whose turn the
/// view is, which signed the proposal, and whose key is known; the proposal is for this view; and
/// the block either is the first one, on the start, or extends the last block seen with a
/// certificate for that block: more votes than faults, unless the block is not beyond the first,
/// each by a known node and signed, by at least as many different nodes as there may be faults.
pub proof fn law_good_proposals<Tx>(s: State<Tx>, p: Arc<Propose>, b: Arc<Block>)
    requires
        0 < s.num_nodes <= u16::MAX,
    ensures
        s.judged(*p, *b) == Ok::<bool, Halt>(true) <==> {
            &&& b.hash == p.block_hash
            &&& b.header.author as int == s.view as int % s.num_nodes as int
            &&& s.keys.contains(b.header.author)
            &&& p.signed
            &&& p.view == s.view
            &&& {
                ||| b.header.height == 1 && b.header.prev == (Digest { hi: 0, lo: 0 })
                ||| {
                    &&& b.header.height != 1
                    &&& b.header.prev == s.last_seen.hash
                    &&& p.cert.msg matches CertType::Vote(_, h) && h == b.header.prev
                    &&& b.header.height > 1 ==> p.cert.votes@.len() > s.num_faults
                    &&& all_signed(s.keys, p.cert.votes@)
                    &&& by_as_many(p.cert.votes@, s.num_faults as int)
                }
            }
        },
{
    lemma_by_as_many(p.cert.votes@);
    assert(s.votes_ok(p.cert.votes@) <==> all_signed(s.keys, p.cert.votes@));
}

/// A node halts over a proposal only if it is for its block, by the node whose turn the view is, on
/// the start if it is the first, and with more votes than faults if it is beyond the first: when
/// the key of that node is not known, or when that node signed it for another view.
pub proof fn law_proposals_that_halt<Tx>(s: State<Tx>, p: Propose, b: Block)
    requires
        0 < s.num_nodes <= u16::MAX,
    ensures
        ({
            let led = {
                &&& b.hash == p.block_hash
                &&& b.header.author as int == s.view as int % s.num_nodes as int
                &&& b.header.height == 1 ==> b.header.prev == (Digest { hi: 0, lo: 0 })
                &&& b.header.height > 1 ==> p.cert.votes@.len() > s.num_faults
            };
            let known = s.keys.contains(b.header.author);
            &&& s.judged(p, b) == Err::<bool, Halt>(Halt::UnknownLeader) <==> led && !known
            &&& s.judged(p, b) == Err::<bool, Halt>(Halt::WrongView) <==> led && known && p.signed
                && p.view != s.view
            &&& s.judged(p, b) is Err ==> s.judged(p, b) == Err::<bool, Halt>(Halt::UnknownLeader)
                || s.judged(p, b) == Err::<bool, Halt>(Halt::WrongView)
        }),
{
}

/// A certificate with one vote more than there may be faults, all of known nodes and signed, is
/// enough: in its view, the leader's signed proposal that extends the last block seen with such a
/// certificate for it is taken, if its block is new. The node votes for it, and has it as the last
/// block seen.
pub proof fn law_good_proposal_is_taken<Tx>(
    s: State<Tx>,
    p: Arc<Propose>,
    b: Arc<Block>,
    vote: Arc<Certificate>,
)
    requires
        s.inv(),
        b.hash == p.block_hash,
        b.header.author as int == s.view as int % s.num_nodes as int,
        s.keys.contains(b.header.author),
        p.signed,
        p.view == s.view,
        b.header.height > 1,
        b.header.prev == s.last_seen.hash,
        p.cert.msg matches CertType::Vote(_, h) && h == s.last_seen.hash,
        p.cert.votes@.len() > s.num_faults,
        all_signed(s.keys, p.cert.votes@),
        by_as_many(p.cert.votes@, s.num_faults as int),
        !s.storage.delivered.contains_key(b.hash),
    ensures
        s.judged(*p, *b) == Ok::<bool, Halt>(true),
        s.received(p, b, vote) is Ok,
        s.received(p, b, vote)->Ok_0.1,
        ({
            let t = s.received(p, b, vote)->Ok_0.0;
            &&& t.outbox == s.outbox.push(Action::Multicast(ProtocolMsg::VoteMsg(vote, p)))
            &&& t.last_seen == b
            &&& t.last_seen_cert == p.cert
            &&& t.height == b.header.height
            &&& t.txs == without(s.txs, b.tx_hashes@)
            &&& t.storage.delivered == s.storage.delivered.insert(b.hash, b)
            &&& t.storage.by_height == s.storage.by_height.insert(b.header.height, b)
            &&& t.storage.committed == s.storage.committed
            &&& t == State {
                outbox: t.outbox,
                last_seen: t.last_seen,
                last_seen_cert: t.last_seen_cert,
                height: t.height,
                storage: t.storage,
                txs: t.txs,
                ..s
            }
        }),
{
    law_good_proposals(s, p, b);
}

/// The first block needs no certificate: the leader's signed proposal of it is taken.
pub proof fn law_first_proposal_is_taken<Tx>(
    s: State<Tx>,
    p: Arc<Propose>,
    b: Arc<Block>,
    vote: Arc<Certificate>,
)
    requires
        s.inv(),
        b.hash == p.block_hash,
        b.header.author as int == s.view as int % s.num_nodes as int,
        s.keys.contains(b.header.author),
        p.signed,
        p.view == s.view,
        b.header.height == 1,
        b.header.prev == (Digest { hi: 0, lo: 0 }),
        s.storage.delivered.contains_key(b.header.prev),
        !s.storage.delivered.contains_key(b.hash),
    ensures
        s.received(p, b, vote) is Ok,
        s.received(p, b, vote)->Ok_0.1,
        s.received(p, b, vote)->Ok_0.0.last_seen == b,
        s.received(p, b, vote)->Ok_0.0.storage.delivered == s.storage.delivered.insert(b.hash, b),
        s.received(p, b, vote)->Ok_0.0.outbox == s.outbox.push(
            Action::Multicast(ProtocolMsg::VoteMsg(vote, p)),
        ),
{
    law_good_proposals(s, p, b);
}

/// A proposal that is not taken changes nothing: one whose block is here already, one that is not
/// good, and one whose parent is missing.
pub proof fn law_untaken_changes_nothing<Tx>(
    s: State<Tx>,
    p: Arc<Propose>,
    b: Arc<Block>,
    vote: Arc<Certificate>,
)
    ensures
        s.storage.delivered.contains_key(b.hash) ==> s.received(p, b, vote) == Ok::<
            (State<Tx>, bool),
            Halt,
        >((s, false)),
        s.judged(*p, *b) == Ok::<bool, Halt>(false) ==> s.received(p, b, vote) == Ok::<
            (State<Tx>, bool),
            Halt,
        >((s, false)),
        !s.storage.delivered.contains_key(b.header.prev) ==> (s.received(p, b, vote) matches Ok((
            t,
            taken,
        )) ==> t == s && !taken),
        s.received(p, b, vote) matches Ok((t, taken)) ==> (taken ==> s.judged(*p, *b) == Ok::<
            bool,
            Halt,
        >(true)),
{
}

/// The transactions of a block that is taken wait no longer; the others do, in their order.
pub proof fn law_taken_txs_wait_no_longer<Tx>(
    q: Seq<(Digest, Arc<Tx>)>,
    hashes: Seq<Digest>,
    e: (Digest, Arc<Tx>),
)
    ensures
        without(q, hashes).contains(e) <==> q.contains(e) && !hashes.contains(e.0),
        hashes.contains(e.0) ==> without(q.push(e), hashes) == without(q, hashes),
        !hashes.contains(e.0) ==> without(q.push(e), hashes) == without(q, hashes).push(e),
        (forall|i: int| 0 <= i < q.len() ==> !hashes.contains((#[trigger] q[i]).0)) ==> without(
            q,
            hashes,
        ) == q,
{
    let keep = |x: (Digest, Arc<Tx>)| !hashes.contains(x.0);
    broadcast use vstd::seq_lib::group_filter_ensures;

    assert(without(q.push(e), hashes) == if keep(e) {
        q.filter(keep).push(e)
    } else {
        q.filter(keep)
    }) by {
        reveal(Seq::filter);
        assert(q.push(e).drop_last() =~= q);
    }
    if forall|i: int| 0 <= i < q.len() ==> !hashes.contains((#[trigger] q[i]).0) {
        lemma_nothing_taken_out(q, hashes);
    }
    if q.contains(e) && !hashes.contains(e.0) {
        let i = choose|i: int| 0 <= i < q.len() && q[i] == e;
        assert(keep(q[i]));
        assert(q.filter(keep).contains(q[i]));
    }
    if without(q, hashes).contains(e) {
        let i = choose|i: int| 0 <= i < without(q, hashes).len() && without(q, hashes)[i] == e;
        assert(keep(q.filter(keep)[i]));
        q.lemma_filter_contains_rev(keep, e);
    }
}

proof fn lemma_nothing_taken_out<Tx>(q: Seq<(Digest, Arc<Tx>)>, hashes: Seq<Digest>)
    requires
        forall|i: int| 0 <= i < q.len() ==> !hashes.contains((#[trigger] q[i]).0),
    ensures
        without(q, hashes) == q,
    decreases q.len(),
{
    reveal(Seq::filter);
    if q.len() > 0 {
        let a = q.drop_last();
        assert forall|i: int| 0 <= i < a.len() implies !hashes.contains((#[trigger] a[i]).0) by {
            assert(a[i] == q[i]);
        }
        lemma_nothing_taken_out(a, hashes);
        assert(!hashes.contains(q[q.len() - 1].0));
        assert(a.push(q.last()) =~= q);
    } else {
        assert(without(q, hashes) =~= q);
    }
}

/// A vote message counts if and only if it holds one vote, by a known node and signed, for the
/// block of the proposal; and that block is here, with no other filed at its height. A node halts
/// over one vote by a known node on something else than a block, and over nothing else.
pub proof fn law_good_votes<Tx>(s: State<Tx>, c: Certificate, p: Propose)
    ensures
        s.vote_ok(c, p) == Ok::<bool, Halt>(true) <==> {
            &&& c.votes@.len() == 1
            &&& s.keys.contains(c.votes@[0].origin)
            &&& c.votes@[0].signed
            &&& c.msg matches CertType::Vote(_, h) && h == p.block_hash
            &&& s.storage.delivered.contains_key(p.block_hash)
            &&& s.storage.by_height.contains_key(
                s.storage.delivered[p.block_hash].header.height,
            ) ==> s.storage.by_height[s.storage.delivered[p.block_hash].header.height].hash
                == p.block_hash
        },
        s.vote_ok(c, p) is Err <==> c.votes@.len() == 1 && s.keys.contains(c.votes@[0].origin)
            && c.msg is Blame,
        s.vote_ok(c, p) is Err ==> s.vote_ok(c, p) == Err::<bool, Halt>(Halt::NotAVote),
{
}

/// Each vote that counts adds one to the votes for its block. The first is only kept. With any
/// further one the block is certified if and only if there are more votes than faults by then, and
/// the certificate, which holds them all, is then the last one seen. Nothing else changes.
pub proof fn law_votes_add_up<Tx>(
    s: State<Tx>,
    h: Digest,
    c: Arc<Certificate>,
    cert: Arc<Certificate>,
)
    requires
        c.votes@.len() > 0,
        s.is_tally(h, c, cert),
    ensures
        !s.vote_map.contains_key(h) ==> cert == c && s.counted(h, cert) == (State {
            vote_map: s.vote_map.insert(h, c),
            ..s
        }),
        s.vote_map.contains_key(h) ==> {
            &&& cert.msg == s.vote_map[h].msg
            &&& cert.votes@ == s.vote_map[h].votes@.push(c.votes@.last())
            &&& cert.votes@.len() == s.vote_map[h].votes@.len() + 1
            &&& s.vote_map[h].votes@.len() >= s.num_faults ==> s.counted(h, cert) == (State {
                vote_map: s.vote_map.insert(h, cert),
                cert_map: s.cert_map.insert(h, cert),
                last_seen_cert: cert,
                ..s
            })
            &&& s.vote_map[h].votes@.len() < s.num_faults ==> s.counted(h, cert) == (State {
                vote_map: s.vote_map.insert(h, cert),
                ..s
            })
        },
{
}

/// When the time of a proposal has come its block commits with all its uncommitted ancestors, and
/// nothing else. Each is announced, the oldest first, and the height of the block is the last one
/// committed.
pub proof fn law_due_block_commits<Tx>(s: State<Tx>, p: Arc<Propose>, n: nat)
    requires
        s.inv(),
        s.storage.delivered.contains_key(p.block_hash),
        !s.storage.committed.contains_key(p.block_hash),
        are_uncommitted(s.storage.delivered, s.storage.committed.dom(), p.block_hash, n),
    ensures
        ({
            let t = s.committed(*p);
            &&& forall|d: Digest| #[trigger]
                t.storage.committed.contains_key(d) <==> s.storage.committed.contains_key(d)
                    || exists|k: nat|
                    k < n && #[trigger] ancestor(s.storage.delivered, p.block_hash, k) == d
            &&& forall|d: Digest| #[trigger]
                s.storage.committed.contains_key(d) ==> t.storage.committed[d]
                    == s.storage.committed[d]
            &&& t.storage.committed.contains_key(p.block_hash)
            &&& t.storage.delivered == s.storage.delivered
            &&& t.storage.by_height == s.storage.by_height
            &&& t.outbox == s.outbox + Seq::new(
                n,
                |i: int|
                    Action::Announce(
                        s.storage.delivered[ancestor(
                            s.storage.delivered,
                            p.block_hash,
                            (n - 1 - i) as nat,
                        )],
                    ),
            ) + seq![Action::CollectHandlers]
            &&& t == State {
                storage: t.storage,
                last_committed_ht: s.storage.delivered[p.block_hash].header.height,
                outbox: t.outbox,
                ..s
            }
        }),
{
    let h = p.block_hash;
    law_commit_adds_ancestors(s.storage, h, n);
    law_ancestors_commit_together(s.storage.delivered, s.storage.committed.dom(), h, n);
    assert(ancestor(s.storage.delivered, h, 0) == h);
    assert(s.committed(*p).outbox =~= s.outbox + Seq::new(
        n,
        |i: int|
            Action::Announce(
                s.storage.delivered[ancestor(s.storage.delivered, h, (n - 1 - i) as nat)],
            ),
    ) + seq![Action::CollectHandlers]);
}

/// A proposal whose block is not here, or has committed, commits nothing.
pub proof fn law_nothing_commits_twice<Tx>(s: State<Tx>, p: Propose)
    ensures
        !s.storage.delivered.contains_key(p.block_hash) || s.storage.committed.contains_key(
            p.block_hash,
        ) ==> s.committed(p) == s,
{
}

/// The block that a node would propose extends the last block it has seen; and once it has taken a
/// proposal, its next block has that proposal's block as its parent, one below it.
pub proof fn law_own_block_extends_last_seen<Tx>(
    s: State<Tx>,
    p: Arc<Propose>,
    b: Arc<Block>,
    vote: Arc<Certificate>,
)
    requires
        s.last_seen.header.height < u64::MAX,
    ensures
        s.next_header().prev == s.last_seen.hash,
        s.next_header().height == s.last_seen.header.height + 1,
        s.next_header().author == s.myid,
        b.header.height < u64::MAX ==> (s.received(p, b, vote) matches Ok((t, taken)) ==> (taken
            ==> t.next_header().prev == b.hash && t.next_header().height == b.header.height + 1
            && t.next_header().author == s.myid)),
{
}

/// A node that proposes tells every other node, with the batch if there is one, and files its
/// block.
pub proof fn law_own_proposal<Tx>(
    s: State<Tx>,
    p: Arc<Propose>,
    b: Arc<Block>,
    batch: Option<HashedBatch<Tx>>,
)
    ensures
        ({
            let t = s.proposed(p, b, batch);
            &&& t.outbox == s.outbox.push(
                Action::Multicast(ProtocolMsg::NewProposal(p, b, batch)),
            )
            &&& t.storage.delivered == s.storage.delivered.insert(b.hash, b)
            &&& t.storage.by_height == s.storage.by_height.insert(b.header.height, b)
            &&& t.storage.committed == s.storage.committed
            &&& t == State { outbox: t.outbox, storage: t.storage, ..s }
        }),
{
}

/// A node proposes if and only if it leads, the last block it has seen is certified, and enough
/// transactions wait to fill a block.
pub proof fn law_who_proposes<Tx>(s: State<Tx>, block_size: usize)
    ensures
        is_to_propose(s, block_size) <==> s.myid == s.last_leader && s.cert_map.dom().contains(
            s.last_seen.hash,
        ) && block_size <= s.txs.len(),
{
}

/// Clients hear of a committed block with its transactions, if there are any clients.
pub proof fn law_clients_hear<Tx>(s: State<Tx>, b: Arc<Block>, tx_hashes: Arc<Vec<Digest>>)
    ensures
        s.clients.len() > 0 ==> s.announced(b, tx_hashes) == (State {
            outbox: s.outbox.push(
                Action::NotifyClients { block: b, tx_hashes, payload: s.payload },
            ),
            ..s
        }),
        s.clients.len() == 0 ==> s.announced(b, tx_hashes) == s,
{
}

/// A proposal that is taken is voted for, by one signed vote of this node for its block in this
/// view, and is then to commit in its time; one that is not changes nothing.
pub proof fn law_taken_is_voted_for_and_scheduled<Tx>(
    s: State<Tx>,
    prop: Arc<Propose>,
    block: Arc<Block>,
    auth: Arc<Vec<u8>>,
    t: State<Tx>,
)
    requires
        goes(s, Event::Proposal { prop, block, auth }, t),
    ensures
        t != s ==> {
            &&& t.outbox.len() == s.outbox.len() + 2
            &&& t.outbox.take(s.outbox.len() as int) == s.outbox
            &&& t.outbox[s.outbox.len() as int] matches Action::Multicast(
                ProtocolMsg::VoteMsg(c, p),
            ) && p == prop && c.msg == CertType::Vote(s.view, block.hash) && c.votes@.len() == 1
                && c.votes@[0].origin == s.myid && c.votes@[0].auth == auth && c.votes@[0].signed
            &&& t.outbox.last() == Action::<Tx>::Schedule(prop)
            &&& t.last_seen == block
        },
        s.judged(*prop, *block) == Ok::<bool, Halt>(true) && !s.storage.delivered.contains_key(
            block.hash,
        ) && s.storage.delivered.contains_key(block.header.prev) ==> t.outbox.len()
            == s.outbox.len() + 2,
{
    let vote = choose|vote: Arc<Certificate>| #[trigger]
        is_vote_for(*vote, s, *block, auth) && match s.received(prop, block, vote) {
            Err(_) => false,
            Ok((u, taken)) => t == if taken {
                u.with_action(Action::Schedule(prop))
            } else {
                u
            },
        };
    assert(is_vote_for(*vote, s, *block, auth));
    assert(s.outbox.push(Action::Multicast(ProtocolMsg::VoteMsg(vote, prop))).push(
        Action::Schedule(prop),
    ).take(s.outbox.len() as int) =~= s.outbox);
}

/// What the other events do: a transaction joins those that wait, at the end and only there; when
/// the time of a proposal has come it commits; a vote that does not count changes nothing, and
/// neither does anything else. After a misfire the node waits, and at the end of what comes it
/// stops.
pub proof fn law_other_events<Tx>(
    s: State<Tx>,
    t: State<Tx>,
    hash: Digest,
    tx: Arc<Tx>,
    cert: Arc<Certificate>,
    p: Arc<Propose>,
)
    ensures
        goes(s, Event::Tx { hash, tx }, t) ==> {
            &&& t == State { txs: t.txs, ..s }
            &&& t.txs.len() > 0
            &&& t.txs.last() == (hash, tx)
            &&& t.txs.drop_last() == without(s.txs, seq![hash])
        },
        goes(s, Event::Timer(p), t) ==> t == s.committed(*p),
        goes(s, Event::Vote { cert, prop: p }, t) ==> (s.vote_ok(*cert, *p) == Ok::<bool, Halt>(
            false,
        ) ==> t == s) && t.storage == s.storage && t.outbox == s.outbox,
        goes(s, Event::TimersDone, t) || goes(s, Event::Misfire, t) || goes(s, Event::Closed, t)
            ==> t == s,
        next_of(Event::<Tx>::Misfire) == Next::Wait,
        next_of(Event::<Tx>::Closed) == Next::Stop,
        next_of(Event::<Tx>::TimersDone) == Next::Propose,
        next_of(Event::<Tx>::Timer(p)) == Next::Propose,
        next_of(Event::<Tx>::Tx { hash, tx }) == Next::Propose,
        next_of(Event::<Tx>::Vote { cert, prop: p }) == Next::Propose,
{
    if goes(s, Event::Tx { hash, tx }, t) {
        assert(without(s.txs, seq![hash]).push((hash, tx)).drop_last() =~= without(
            s.txs,
            seq![hash],
        ));
    }
}

/// A node that begins has seen, delivered and committed the first block, which is certified
/// without a vote, and nothing else; it is in the first view, which node zero leads, with nothing
/// waiting and nothing to do.
pub proof fn law_how_a_node_begins<Tx>(s: State<Tx>, config: Node, genesis: Arc<Block>, d: Digest)
    requires
        is_fresh(s, config, genesis),
    ensures
        s.num_nodes == config.num_nodes,
        s.num_faults == config.num_faults,
        s.myid == config.id,
        s.keys == config.pk_map@.dom(),
        s.last_seen == genesis,
        s.storage.delivered.contains_key(d) <==> d == genesis.hash,
        s.storage.committed.contains_key(d) <==> d == genesis.hash,
        s.storage.delivered[genesis.hash] == genesis,
        s.storage.committed[genesis.hash] == genesis,
        s.cert_map.contains_key(d) <==> d == genesis.hash,
        s.cert_map[genesis.hash].votes@.len() == 0,
        s.cert_map[genesis.hash] == s.last_seen_cert,
        !s.vote_map.contains_key(d),
        s.height == 0,
        s.last_committed_ht == 0,
        s.last_leader == 0,
        s.view == 0,
        s.txs.len() == 0,
        s.pending.len() == 0,
        s.outbox.len() == 0,
        s.clients.no_duplicates(),
        s.clients.to_set() == config.client_net_map@.dom(),
        config.payload * config.block_size <= usize::MAX ==> s.payload == config.payload
            * config.block_size,
{
}

/// The transactions that are taken for a block are the first that wait, in their order.
pub proof fn law_first_txs_are_taken<Tx>(q: Seq<(Digest, Arc<Tx>)>, n: int, i: int)
    requires
        0 <= i < n <= q.len(),
    ensures
        txs_of(q.take(n)).len() == n,
        txs_of(q.take(n))[i] == q[i].1,
{
}

/// When a vote that counts comes, there is one more vote for its block, and the block is certified
/// by it if and only if it is not the first and there are more votes than faults by then.
pub proof fn law_vote_is_counted<Tx>(
    s: State<Tx>,
    cert: Arc<Certificate>,
    prop: Arc<Propose>,
    t: State<Tx>,
)
    requires
        s.vote_ok(*cert, *prop) == Ok::<bool, Halt>(true),
        goes(s, Event::Vote { cert, prop }, t),
    ensures
        ({
            let h = prop.block_hash;
            let first = !s.vote_map.contains_key(h);
            let before = if first {
                0
            } else {
                s.vote_map[h].votes@.len() as int
            };
            &&& t.vote_map.contains_key(h)
            &&& t.vote_map[h].votes@.len() == before + 1
            &&& t.vote_map[h].votes@.last() == cert.votes@[0]
            &&& t.vote_map.remove(h) == s.vote_map.remove(h)
            &&& !first && before + 1 > s.num_faults ==> t.cert_map == s.cert_map.insert(
                h,
                t.vote_map[h],
            ) && t.last_seen_cert == t.vote_map[h]
            &&& first || before + 1 <= s.num_faults ==> t.cert_map == s.cert_map
                && t.last_seen_cert == s.last_seen_cert
            &&& t == State {
                vote_map: t.vote_map,
                cert_map: t.cert_map,
                last_seen_cert: t.last_seen_cert,
                ..s
            }
        }),
{
    let h = prop.block_hash;
    let tally = choose|tally: Arc<Certificate>| #[trigger]
        s.is_tally(h, cert, tally) && t == s.counted(h, tally);
    assert(s.is_tally(h, cert, tally));
    assert(cert.votes@.len() == 1);
    law_votes_add_up(s, h, cert, tally);
    assert(t.vote_map.remove(h) =~= s.vote_map.remove(h));
}

} // verus!
