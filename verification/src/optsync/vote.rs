//! Votes.

use crate::digest::Digest;
use crate::optsync::context::{Context, State};
use crate::synchs::types::{Certificate, Halt, Propose};
use crate::synchs::vote::{add_vote as add_sync_vote, check_vote};
use std::sync::Arc;
use vstd::prelude::*;

verus! {

/// How many votes let a block commit at once: three quarters of the nodes.
pub open spec fn fast_quorum<Tx>(s: State<Tx>) -> int {
    (3 * s.sync.num_nodes) / 4
}

/// The node after a good vote was added for a block, and whether the block can commit at once;
/// `cert` holds the votes by now. The first vote for a block never suffices.
pub open spec fn counted<Tx>(s: State<Tx>, h: Digest, cert: Arc<Certificate>) -> (State<Tx>, bool) {
    let fast = s.sync.vote_map.contains_key(h) && cert.votes@.len() >= fast_quorum(s);
    (
        State {
            sync: s.sync.counted(h, cert),
            responsive: if fast {
                s.responsive.insert(h, cert)
            } else {
                s.responsive
            },
            ..s
        },
        fast,
    )
}

/// Adds a good vote for a block. Hands back whether the block can commit at once.
pub fn add_vote<Tx>(c: Arc<Certificate>, hash: Digest, cx: &mut Context<Tx>) -> (fast: bool)
    requires
        c.votes@.len() > 0,
        old(cx)@.sync.inv(),
    ensures
        exists|cert: Arc<Certificate>| #[trigger]
            old(cx)@.sync.is_tally(hash, c, cert) && (final(cx)@, fast) == counted(
                old(cx)@,
                hash,
                cert,
            ),
        final(cx)@.sync.inv(),
        final(cx)@.sync.vote_map.contains_key(hash),
        fast <==> old(cx)@.sync.vote_map.contains_key(hash)
            && final(cx)@.sync.vote_map[hash].votes@.len() >= (3 * old(cx)@.sync.num_nodes) / 4,
{
    let needed: usize = (3 * cx.sync.num_nodes) / 4;
    let tally = add_sync_vote(c, hash, &mut cx.sync);
    proof {
        let cert = choose|cert: Arc<Certificate>| #[trigger]
            old(cx)@.sync.is_tally(hash, c, cert) && cx@.sync == old(cx)@.sync.counted(hash, cert)
                && (tally matches Some(t) ==> t == cert);
        assert(old(cx)@.sync.is_tally(hash, c, cert));
    }
    match tally {
        None => false,
        Some(cert) => {
            if cert.votes.len() >= needed {
                cx.resp_cert.insert(hash, cert);
                true
            } else {
                false
            }
        },
    }
}

/// Whether a vote message counts: it is good, and its block is not one that could commit at
/// once already.
pub open spec fn vote_counts<Tx>(s: State<Tx>, c: Certificate, p: Propose) -> Result<bool, Halt> {
    match s.sync.vote_ok(c, p) {
        Err(h) => Err(h),
        Ok(ok) => Ok(ok && !s.responsive.contains_key(p.block_hash)),
    }
}

/// A vote came for a proposal. One that counts is added; the answer is whether the block can
/// commit at once now.
pub fn on_vote<Tx>(c: Arc<Certificate>, p: &Propose, cx: &mut Context<Tx>) -> (r: Result<bool, Halt>)
    requires
        old(cx)@.sync.inv(),
    ensures
        match r {
            Err(h) => vote_counts(old(cx)@, *c, *p) == Err::<bool, Halt>(h),
            Ok(fast) => match vote_counts(old(cx)@, *c, *p) {
                Err(_) => false,
                Ok(false) => final(cx)@ == old(cx)@ && !fast,
                Ok(true) => exists|cert: Arc<Certificate>| #[trigger]
                    old(cx)@.sync.is_tally(p.block_hash, c, cert) && (final(cx)@, fast) == counted(
                        old(cx)@,
                        p.block_hash,
                        cert,
                    ),
            },
        },
        r is Ok ==> final(cx)@.sync.inv(),
{
    match check_vote(&*c, p, &cx.sync) {
        Err(h) => Err(h),
        Ok(None) => Ok(false),
        Ok(Some(h)) => {
            if cx.resp_cert.contains_key(h) {
                return Ok(false);
            }
            Ok(add_vote(c, h, cx))
        },
    }
}

/// A block commits at once only with the votes of three quarters of the nodes, and at most once:
/// no later vote for it counts.
pub proof fn law_fast_path_needs_quorum<Tx>(
    s: State<Tx>,
    h: Digest,
    cert: Arc<Certificate>,
    c: Certificate,
    p: Propose,
)
    requires
        counted(s, h, cert).1,
        p.block_hash == h,
    ensures
        cert.votes@.len() >= fast_quorum(s),
        counted(s, h, cert).0.responsive.contains_key(h),
        vote_counts(counted(s, h, cert).0, c, p) != Ok::<bool, Halt>(true),
{
}

} // verus!
