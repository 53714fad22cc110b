//! What each thing that happens does to an Opt Sync node, case by case.

use crate::chain::storage::{ancestor, are_uncommitted};
use crate::digest::Digest;
use crate::mempool::processor::HashedBatch;
use crate::optsync::context::State;
use crate::optsync::process::{processes, receives};
use crate::optsync::reactor::{goes, is_to_propose, next_of, Event};
use crate::optsync::vote::{counted, vote_counts};
use crate::synchs::proposal::is_vote_for;
use crate::synchs::reactor::Next;
use crate::synchs::rules::{law_due_block_commits, law_good_votes, law_votes_add_up};
use crate::synchs::state::State as SyncState;
use crate::synchs::types::{
    Action, Block, CertType, Certificate, Halt, Propose, ProtocolMsg,
};
use std::sync::Arc;
use vstd::prelude::*;

verus! {

/// A vote lets a block commit at once if and only if it is not the first for the block and the
/// votes by then are at least three quarters of the nodes, rounded down. The block then counts as
/// one that could commit at once, with those votes; otherwise it does not by this vote.
pub proof fn law_fast_commit_takes_three_quarters<Tx>(
    s: State<Tx>,
    h: Digest,
    c: Arc<Certificate>,
    cert: Arc<Certificate>,
)
    requires
        c.votes@.len() > 0,
        s.sync.is_tally(h, c, cert),
    ensures
        counted(s, h, cert).1 <==> s.sync.vote_map.contains_key(h) && cert.votes@.len() >= (3
            * s.sync.num_nodes) / 4,
        counted(s, h, cert).1 <==> s.sync.vote_map.contains_key(h) && 4 * (
        s.sync.vote_map[h].votes@.len() + 1) > 3 * s.sync.num_nodes - 4,
        s.sync.vote_map.contains_key(h) && s.sync.vote_map[h].votes@.len() > 0 && counted(
            s,
            h,
            cert,
        ).1 ==> cert.votes@.len() >= 2,
        counted(s, h, cert).1 ==> counted(s, h, cert).0.responsive == s.responsive.insert(h, cert),
        !counted(s, h, cert).1 ==> counted(s, h, cert).0.responsive == s.responsive,
        counted(s, h, cert).0.sync == s.sync.counted(h, cert),
        counted(s, h, cert).0.d2_millis == s.d2_millis,
{
}

/// A vote message counts if and only if it is good and its block is not one that could commit at
/// once before; it halts the node when it would halt a Sync HotStuff node.
pub proof fn law_which_votes_count<Tx>(s: State<Tx>, c: Certificate, p: Propose)
    ensures
        vote_counts(s, c, p) == Ok::<bool, Halt>(true) <==> {
            &&& c.votes@.len() == 1
            &&& s.sync.keys.contains(c.votes@[0].origin)
            &&& c.votes@[0].signed
            &&& c.msg matches CertType::Vote(_, h) && h == p.block_hash
            &&& s.sync.storage.delivered.contains_key(p.block_hash)
            &&& s.sync.storage.by_height.contains_key(
                s.sync.storage.delivered[p.block_hash].header.height,
            ) ==> s.sync.storage.by_height[s.sync.storage.delivered[p.block_hash].header.height].hash
                == p.block_hash
            &&& !s.responsive.contains_key(p.block_hash)
        },
        vote_counts(s, c, p) is Err <==> c.votes@.len() == 1 && s.sync.keys.contains(
            c.votes@[0].origin,
        ) && c.msg is Blame,
{
    law_good_votes(s.sync, c, p);
}

/// When a vote message that counts comes, the block commits at once, with its uncommitted
/// ancestors, if and only if the votes for it by then are at least two and at least three quarters
/// of the nodes, rounded down. Otherwise nothing commits and nothing is announced by it.
pub proof fn law_vote_commits_at_once<Tx>(
    s: State<Tx>,
    c: Arc<Certificate>,
    p: Arc<Propose>,
    auth: Arc<Vec<u8>>,
    t: State<Tx>,
    n: nat,
)
    requires
        s.sync.inv(),
        vote_counts(s, *c, *p) == Ok::<bool, Halt>(true),
        processes(s, ProtocolMsg::VoteMsg(c, p), auth, t),
        !s.sync.storage.committed.contains_key(p.block_hash),
        are_uncommitted(
            s.sync.storage.delivered,
            s.sync.storage.committed.dom(),
            p.block_hash,
            n,
        ),
        s.sync.vote_map.contains_key(p.block_hash) ==> s.sync.vote_map[p.block_hash].votes@.len()
            > 0,
    ensures
        ({
            let votes = 1 + if s.sync.vote_map.contains_key(p.block_hash) {
                s.sync.vote_map[p.block_hash].votes@.len() as int
            } else {
                0
            };
            let enough = votes >= 2 && votes >= (3 * s.sync.num_nodes) / 4;
            &&& t.sync.vote_map.contains_key(p.block_hash)
            &&& t.sync.vote_map[p.block_hash].votes@.len() == votes
            &&& t.sync.storage.committed.contains_key(p.block_hash) <==> enough
            &&& t.responsive.contains_key(p.block_hash) <==> enough
            &&& t.sync.cert_map.contains_key(p.block_hash) <==> s.sync.cert_map.contains_key(
                p.block_hash,
            ) || (votes >= 2 && votes > s.sync.num_faults)
            &&& enough ==> forall|d: Digest| #[trigger]
                t.sync.storage.committed.contains_key(d) <==> s.sync.storage.committed.contains_key(
                    d,
                ) || exists|k: nat|
                    k < n && #[trigger] ancestor(s.sync.storage.delivered, p.block_hash, k) == d
            &&& enough ==> t.sync.outbox == s.sync.outbox + Seq::new(
                n,
                |i: int|
                    Action::Announce(
                        s.sync.storage.delivered[ancestor(
                            s.sync.storage.delivered,
                            p.block_hash,
                            (n - 1 - i) as nat,
                        )],
                    ),
            ) + seq![Action::CollectHandlers]
            &&& !enough ==> t.sync.storage == s.sync.storage && t.sync.outbox == s.sync.outbox
            &&& t.d2_millis == s.d2_millis
        }),
{
    let h = p.block_hash;
    let cert = choose|cert: Arc<Certificate>| #[trigger]
        s.sync.is_tally(h, c, cert) && {
            let (u, fast) = counted(s, h, cert);
            t == if fast {
                State { sync: u.sync.committed(*p), ..u }
            } else {
                u
            }
        };
    assert(s.sync.is_tally(h, c, cert));
    let (u, fast) = counted(s, h, cert);
    assert(c.votes@.len() == 1);
    law_votes_add_up(s.sync, h, c, cert);
    if fast {
        law_due_block_commits(u.sync, p, n);
    }
}

/// A proposal with no batch, or with one its block does not refer to, is passed over. Otherwise it
/// is judged as in Sync HotStuff, and one that is taken has its batch kept and is then to commit in
/// its time.
pub proof fn law_proposal_needs_its_batch<Tx>(
    s: SyncState<Tx>,
    p: Arc<Propose>,
    b: Arc<Block>,
    batch: Option<HashedBatch<Tx>>,
    auth: Arc<Vec<u8>>,
    t: SyncState<Tx>,
    taken: bool,
)
    requires
        receives(s, p, b, batch, auth, t, taken),
    ensures
        batch is None || batch->0.hash != b.batch_hash ==> t == s && !taken,
        !taken ==> t == s,
        taken ==> {
            &&& batch matches Some(hb) && hb.hash == b.batch_hash && t.outbox[s.outbox.len() as int + 1]
                == Action::Persist(hb)
            &&& t.outbox.len() == s.outbox.len() + 3
            &&& t.outbox.take(s.outbox.len() as int) == s.outbox
            &&& t.outbox[s.outbox.len() as int] matches Action::Multicast(
                ProtocolMsg::VoteMsg(c, q),
            ) && q == p && c.msg == CertType::Vote(s.view, b.hash) && c.votes@.len() == 1
                && c.votes@[0].origin == s.myid && c.votes@[0].auth == auth && c.votes@[0].signed
            &&& t.outbox.last() == Action::<Tx>::Schedule(p)
            &&& t.last_seen == b
            &&& s.judged(*p, *b) == Ok::<bool, Halt>(true)
        },
        batch is Some && batch->0.hash == b.batch_hash && s.judged(*p, *b) == Ok::<bool, Halt>(true)
            && !s.storage.delivered.contains_key(b.hash) && s.storage.delivered.contains_key(
            b.header.prev,
        ) ==> taken,
{
    if batch is Some && batch->0.hash == b.batch_hash {
        let vote = choose|vote: Arc<Certificate>| #[trigger]
            is_vote_for(*vote, s, *b, auth) && match s.received(p, b, vote) {
                Err(_) => false,
                Ok((u, took)) => taken == took && t == if took {
                    u.with_action(Action::Persist(batch->0)).with_action(Action::Schedule(p))
                } else {
                    u
                },
            };
        assert(is_vote_for(*vote, s, *b, auth));
        assert(s.outbox.push(Action::Multicast(ProtocolMsg::VoteMsg(vote, p))).push(
            Action::Persist(batch->0),
        ).push(Action::Schedule(p)).take(s.outbox.len() as int) =~= s.outbox);
    }
}

/// A node proposes if and only if it leads, the last block it has seen is certified, and a batch
/// waits.
pub proof fn law_who_proposes<Tx>(s: SyncState<Tx>)
    ensures
        is_to_propose(s) <==> s.myid == s.last_leader && s.cert_map.dom().contains(
            s.last_seen.hash,
        ) && s.pending.len() >= 1,
{
}

/// What the other events do: a batch joins those that wait, at the end; when the time of a proposal
/// has come it commits; and nothing else changes anything. After a misfire the node waits, and at
/// the end of what comes it stops.
pub proof fn law_other_events<Tx>(
    s: State<Tx>,
    t: State<Tx>,
    batch: HashedBatch<Tx>,
    p: Arc<Propose>,
    msg: ProtocolMsg<Tx>,
    auth: Arc<Vec<u8>>,
)
    ensures
        goes(s, Event::Batch(batch), t) ==> t == (State {
            sync: SyncState { pending: s.sync.pending.push(batch), ..s.sync },
            ..s
        }),
        goes(s, Event::Timer(p), t) ==> t.sync == s.sync.committed(*p) && t.responsive
            == s.responsive && t.d2_millis == s.d2_millis,
        goes(s, Event::TimersDone, t) || goes(s, Event::Misfire, t) || goes(s, Event::Closed, t)
            ==> t == s,
        goes(s, Event::Message { msg, auth }, t) ==> processes(s, msg, auth, t) && t.d2_millis
            == s.d2_millis,
        next_of(Event::<Tx>::Misfire) == Next::Wait,
        next_of(Event::<Tx>::Closed) == Next::Stop,
        next_of(Event::<Tx>::TimersDone) == Next::Propose,
        next_of(Event::<Tx>::Timer(p)) == Next::Propose,
        next_of(Event::<Tx>::Batch(batch)) == Next::Propose,
        next_of(Event::<Tx>::Message { msg, auth }) == Next::Propose,
{
}

} // verus!
