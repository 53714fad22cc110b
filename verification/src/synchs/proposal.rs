//! Proposals.

use crate::chain::block::Header;
use crate::digest::Digest;
use crate::fnv_map::FnvMap;
use crate::mempool::processor::HashedBatch;
use crate::mempool::tx::Replica;
use crate::synchs::context::Context;
use crate::synchs::state::{lemma_took_inv, voters, State};
use crate::synchs::types::{
    first_hash, Block, CertType, Certificate, Halt, Propose, ProtocolMsg, Vote,
};
use std::sync::Arc;
use vstd::prelude::*;

verus! {

/// Whether the votes of a certificate are all by known nodes with their signatures, and by how
/// many different nodes.
fn count_voters<Tx>(votes: &Vec<Arc<Vote>>, cx: &Context<Tx>) -> (n: Option<usize>)
    ensures
        match n {
            Some(n) => cx@.votes_ok(votes@) && n == voters(votes@).len(),
            None => !cx@.votes_ok(votes@),
        },
{
    let mut uniq: FnvMap<Replica, ()> = FnvMap::new();
    let mut i: usize = 0;
    assert(uniq@.dom() =~= voters(votes@.take(0)));
    while i < votes.len()
        invariant
            i <= votes@.len(),
            forall|j: int|
                0 <= j < i ==> cx@.keys.contains((#[trigger] votes@[j]).origin)
                    && votes@[j].signed,
            uniq@.dom() == voters(votes@.take(i as int)),
        decreases votes@.len() - i,
    {
        let v = &votes[i];
        if !cx.pub_key_map.contains_key(v.origin) {
            return None;
        }
        if !v.signed {
            return None;
        }
        uniq.insert(v.origin, ());
        proof {
            let a = votes@.take(i as int);
            let b = votes@.take(i + 1);
            assert(b[i as int].origin == v.origin);
            assert forall|r: Replica| voters(b).contains(r) <==> voters(a).contains(r) || r
                == v.origin by {
                if voters(a).contains(r) {
                    let j = choose|j: int| 0 <= j < a.len() && (#[trigger] a[j]).origin == r;
                    assert(b[j].origin == r);
                }
                if voters(b).contains(r) && r != v.origin {
                    let j = choose|j: int| 0 <= j < b.len() && (#[trigger] b[j]).origin == r;
                    assert(a[j].origin == r);
                }
            }
            assert(uniq@.dom() =~= voters(b));
        }
        i = i + 1;
    }
    assert(votes@.take(i as int) =~= votes@);
    Some(uniq.len())
}

/// Whether a proposal is good.
pub fn check_proposal<Tx>(p: &Propose, new_block: &Block, cx: &Context<Tx>) -> (r: Result<
    bool,
    Halt,
>)
    requires
        cx@.inv(),
    ensures
        r == cx@.judged(*p, *new_block),
{
    if new_block.hash != p.block_hash {
        return Ok(false);
    }
    if new_block.header.author != cx.leader_of_view() {
        return Ok(false);
    }
    if new_block.header.height == 1 && new_block.header.prev != first_hash() {
        return Ok(false);
    }
    if new_block.header.height > 1 && p.cert.votes.len() <= cx.num_faults {
        return Ok(false);
    }
    if !cx.pub_key_map.contains_key(new_block.header.author) {
        return Err(Halt::UnknownLeader);
    }
    if !p.signed {
        return Ok(false);
    }
    if cx.view != p.view {
        return Err(Halt::WrongView);
    }
    if new_block.header.height == 1 {
        return Ok(true);
    }
    match p.cert.msg {
        CertType::Vote(_, h) => {
            if h != new_block.header.prev {
                return Ok(false);
            }
        },
        CertType::Blame(_, _) => {
            return Ok(false);
        },
    }
    match count_voters(&p.cert.votes, cx) {
        None => {
            return Ok(false);
        },
        Some(n) => {
            if n < cx.num_faults {
                return Ok(false);
            }
        },
    }
    Ok(new_block.header.prev == cx.last_seen_block.hash)
}

/// What this node's vote for a block says.
pub open spec fn is_vote_for<Tx>(c: Certificate, s: State<Tx>, b: Block, auth: Arc<Vec<u8>>) -> bool {
    &&& c.msg == CertType::Vote(s.view, b.hash)
    &&& c.votes@ == seq![Arc::new(Vote { origin: s.myid, auth, signed: true })]
}

/// A proposal came. If it is new and good it is taken. `auth` is this node's signature on a
/// vote for the block in this view.
pub fn on_receive_proposal<Tx>(
    p: Arc<Propose>,
    new_block: Arc<Block>,
    auth: Arc<Vec<u8>>,
    cx: &mut Context<Tx>,
) -> (r: Result<bool, Halt>)
    requires
        old(cx)@.inv(),
    ensures
        match r {
            Ok(taken) => final(cx)@.inv() && exists|vote: Arc<Certificate>| #[trigger]
                is_vote_for(*vote, old(cx)@, *new_block, auth) && old(cx)@.received(
                    p,
                    new_block,
                    vote,
                ) == Ok::<(State<Tx>, bool), Halt>((final(cx)@, taken)),
            Err(h) => !old(cx)@.storage.delivered.contains_key(new_block.hash) && old(
                cx,
            )@.judged(*p, *new_block) == Err::<bool, Halt>(h),
        },
{
    let vote = Arc::new(my_vote(&*new_block, auth, cx));
    assert(is_vote_for(*vote, old(cx)@, *new_block, auth));
    if cx.storage.is_delivered_by_hash(&new_block.hash) {
        assert(old(cx)@.received(p, new_block, vote) == Ok::<(State<Tx>, bool), Halt>(
            (cx@, false),
        ));
        return Ok(false);
    }
    match check_proposal(&*p, &*new_block, cx) {
        Err(h) => Err(h),
        Ok(false) => {
            assert(old(cx)@.received(p, new_block, vote) == Ok::<(State<Tx>, bool), Halt>(
                (cx@, false),
            ));
            Ok(false)
        },
        Ok(true) => {
            let taken = on_new_valid_proposal(p, new_block, Arc::clone(&vote), cx);
            assert(old(cx)@.received(p, new_block, vote) == Ok::<(State<Tx>, bool), Halt>(
                (cx@, taken),
            ));
            Ok(taken)
        },
    }
}

/// This node's vote for a block.
fn my_vote<Tx>(b: &Block, auth: Arc<Vec<u8>>, cx: &Context<Tx>) -> (c: Certificate)
    ensures
        is_vote_for(c, cx@, *b, auth),
{
    let mut votes: Vec<Arc<Vote>> = Vec::new();
    votes.push(Arc::new(Vote { origin: cx.myid, auth, signed: true }));
    let c = Certificate { msg: CertType::Vote(cx.view, b.hash), votes };
    assert(c.votes@ =~= seq![Arc::new(Vote { origin: cx@.myid, auth, signed: true })]);
    c
}

/// Takes a good proposal: votes for it, and has its block as the last one seen. Without the
/// parent nothing happens.
pub fn on_new_valid_proposal<Tx>(
    p: Arc<Propose>,
    new_block: Arc<Block>,
    vote: Arc<Certificate>,
    cx: &mut Context<Tx>,
) -> (taken: bool)
    requires
        old(cx)@.inv(),
    ensures
        (final(cx)@, taken) == old(cx)@.took(p, new_block, vote),
        final(cx)@.inv(),
{
    proof {
        lemma_took_inv(cx@, p, new_block, vote);
    }
    if !cx.storage.is_delivered_by_hash(&new_block.header.prev) {
        return false;
    }
    cx.multicast(ProtocolMsg::VoteMsg(vote, Arc::clone(&p)));
    cx.storage.add_delivered_block(Arc::clone(&new_block));
    cx.tx_pool.clear(&*new_block.tx_hashes);
    cx.height = new_block.header.height;
    cx.last_seen_block = new_block;
    cx.last_seen_cert = Arc::clone(&p.cert);
    true
}

/// The header of the block that this node would propose: it extends the last block seen.
pub fn next_header<Tx>(cx: &Context<Tx>) -> (h: Option<Header>)
    ensures
        h == (if cx@.last_seen.header.height == u64::MAX {
            None
        } else {
            Some(cx@.next_header())
        }),
        h matches Some(h) ==> h.prev == cx@.last_seen.hash && h.height == cx@.last_seen.header.height + 1 && h.author
            == cx@.myid,
{
    let parent = &cx.last_seen_block;
    if parent.header.height == u64::MAX {
        None
    } else {
        Some(Header { prev: parent.hash, author: cx.myid, height: parent.header.height + 1 })
    }
}

/// The hashes and the signature of a new block. `block_hash` is the hash of the block with the
/// header of [`next_header`], and `proof_bytes` this node's signature on it.
pub struct NewBlock {
    pub tx_hashes: Arc<Vec<Digest>>,
    pub batch_hash: Digest,
    pub block_hash: Digest,
    pub proof_bytes: Arc<Vec<u8>>,
}

/// Proposes a block on the last block seen, which must be certified. The proposal carries the
/// certificate of the parent.
pub fn do_propose<Tx>(
    new: NewBlock,
    batch: Option<HashedBatch<Tx>>,
    cx: &mut Context<Tx>,
) -> (r: Result<(Arc<Propose>, Arc<Block>), Halt>)
    requires
        old(cx)@.inv(),
        old(cx)@.cert_map.contains_key(old(cx)@.last_seen.hash),
    ensures
        match r {
            Err(h) => h == Halt::Overflow && old(cx)@.last_seen.header.height == u64::MAX
                && final(cx)@ == old(cx)@,
            Ok((p, b)) => {
                &&& old(cx)@.last_seen.header.height < u64::MAX
                &&& *b == (Block {
                    header: old(cx)@.next_header(),
                    tx_hashes: new.tx_hashes,
                    batch_hash: new.batch_hash,
                    hash: new.block_hash,
                })
                &&& *p == (Propose {
                    block_hash: new.block_hash,
                    cert: old(cx)@.cert_map[old(cx)@.last_seen.hash],
                    view: old(cx)@.view,
                    proof: new.proof_bytes,
                    signed: true,
                })
                &&& final(cx)@ == old(cx)@.proposed(p, b, batch)
                &&& final(cx)@.inv()
            },
        },
{
    let header = match next_header(cx) {
        Some(h) => h,
        None => {
            return Err(Halt::Overflow);
        },
    };
    let cert = match cx.cert_map.get(cx.last_seen_block.hash) {
        Some(c) => Arc::clone(c),
        None => {
            return Err(Halt::Overflow);
        },
    };
    let block = Arc::new(
        Block {
            header,
            tx_hashes: new.tx_hashes,
            batch_hash: new.batch_hash,
            hash: new.block_hash,
        },
    );
    let p = Arc::new(
        Propose {
            block_hash: new.block_hash,
            cert,
            view: cx.view,
            proof: new.proof_bytes,
            signed: true,
        },
    );
    cx.multicast(ProtocolMsg::NewProposal(Arc::clone(&p), Arc::clone(&block), batch));
    cx.storage.add_delivered_block(Arc::clone(&block));
    Ok((p, block))
}

/// A proposal is taken only if it is the view leader's, signed by it, in this view, and for its
/// block; and, unless it is the first, only if it extends the last block seen with votes of
/// known nodes for that block, more than there are faults.
pub proof fn law_taken_is_certified<Tx>(
    s: State<Tx>,
    p: Arc<Propose>,
    b: Arc<Block>,
    vote: Arc<Certificate>,
)
    requires
        s.received(p, b, vote) is Ok,
        s.received(p, b, vote)->Ok_0.1,
    ensures
        b.hash == p.block_hash,
        b.header.author == s.leader_of_view(),
        p.signed,
        p.view == s.view,
        b.header.height != 1 ==> b.header.prev == s.last_seen.hash && s.certifies_parent(
            *p.cert,
            b.header.prev,
        ),
        b.header.height > 1 ==> p.cert.votes@.len() > s.num_faults,
        s.received(p, b, vote)->Ok_0.0.last_seen == b,
{
}

} // verus!
