//! Votes.

use crate::digest::Digest;
use crate::synchs::context::Context;
use crate::synchs::state::State;
use crate::synchs::types::{CertType, Certificate, Halt, Propose};
use std::sync::Arc;
use vstd::prelude::*;

verus! {

/// Adds a good vote for a block. Hands back the votes that have come for it, unless this is the
/// first.
pub fn add_vote<Tx>(c: Arc<Certificate>, hash: Digest, cx: &mut Context<Tx>) -> (r: Option<
    Arc<Certificate>,
>)
    requires
        c.votes@.len() > 0,
    ensures
        r is Some == old(cx)@.vote_map.contains_key(hash),
        exists|cert: Arc<Certificate>| #[trigger]
            old(cx)@.is_tally(hash, c, cert) && final(cx)@ == old(cx)@.counted(hash, cert) && (
            r matches Some(t) ==> t == cert),
{
    let cert = match cx.vote_map.remove(hash) {
        None => {
            assert(old(cx)@.is_tally(hash, c, c));
            cx.vote_map.insert(hash, c);
            assert(cx@ =~= old(cx)@.counted(hash, c));
            return None;
        },
        Some(cert) => cert,
    };
    let v = Arc::clone(&c.votes[c.votes.len() - 1]);
    let cert = Arc::new(cert.with_vote(v));
    assert(old(cx)@.is_tally(hash, c, cert));
    if cert.votes.len() > cx.num_faults {
        cx.cert_map.insert(hash, Arc::clone(&cert));
        cx.last_seen_cert = Arc::clone(&cert);
    }
    cx.vote_map.insert(hash, Arc::clone(&cert));
    assert(cx@ =~= old(cx)@.counted(hash, cert));
    Some(cert)
}

/// Whether a vote message is good for a proposal, and for which block it is.
pub fn check_vote<Tx>(c: &Certificate, p: &Propose, cx: &Context<Tx>) -> (r: Result<
    Option<Digest>,
    Halt,
>)
    ensures
        match r {
            Err(h) => cx@.vote_ok(*c, *p) == Err::<bool, Halt>(h),
            Ok(None) => cx@.vote_ok(*c, *p) == Ok::<bool, Halt>(false),
            Ok(Some(h)) => cx@.vote_ok(*c, *p) == Ok::<bool, Halt>(true) && h == p.block_hash,
        },
{
    if c.votes.len() != 1 {
        return Ok(None);
    }
    let vote = &c.votes[0];
    if !cx.pub_key_map.contains_key(vote.origin) {
        return Ok(None);
    }
    let h: Digest = match c.msg {
        CertType::Vote(_, d) => d,
        CertType::Blame(_, _) => {
            return Err(Halt::NotAVote);
        },
    };
    if h != p.block_hash {
        return Ok(None);
    }
    if !vote.signed {
        return Ok(None);
    }
    let block = match cx.storage.delivered_block_from_hash(&h) {
        None => {
            return Ok(None);
        },
        Some(b) => b,
    };
    if let Some(x) = cx.storage.delivered_block_from_ht(block.header.height) {
        if x.hash != h {
            return Ok(None);
        }
    }
    Ok(Some(h))
}

/// A vote came for a proposal. A good one is added.
pub fn on_vote<Tx>(c: Arc<Certificate>, p: &Propose, cx: &mut Context<Tx>) -> (r: Result<(), Halt>)
    requires
        old(cx)@.inv(),
    ensures
        match r {
            Err(h) => old(cx)@.vote_ok(*c, *p) == Err::<bool, Halt>(h),
            Ok(()) => match old(cx)@.vote_ok(*c, *p) {
                Err(_) => false,
                Ok(false) => final(cx)@ == old(cx)@,
                Ok(true) => exists|cert: Arc<Certificate>| #[trigger]
                    old(cx)@.is_tally(p.block_hash, c, cert) && final(cx)@ == old(cx)@.counted(
                        p.block_hash,
                        cert,
                    ),
            },
        },
        r is Ok ==> final(cx)@.inv(),
{
    match check_vote(&*c, p, cx) {
        Err(h) => Err(h),
        Ok(None) => Ok(()),
        Ok(Some(h)) => {
            let _ = add_vote(c, h, cx);
            Ok(())
        },
    }
}

/// A block is certified only with more votes than there are faults: whenever a vote certifies a
/// block, its certificate has that many.
pub proof fn law_certified_has_quorum<Tx>(s: State<Tx>, h: Digest, cert: Arc<Certificate>)
    ensures
        s.counted(h, cert).cert_map == s.cert_map || (s.counted(h, cert).cert_map
            == s.cert_map.insert(h, cert) && cert.votes@.len() > s.num_faults),
        s.counted(h, cert).vote_map == s.vote_map.insert(h, cert),
        s.counted(h, cert).storage == s.storage,
{
}

} // verus!
