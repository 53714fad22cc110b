//! Tells each client that its transactions have committed.
//!
//! Confirmations go out per transaction: the pool mixes the transactions of several clients in
//! one batch, so no batch of a client ever commits as such.

use crate::digest::{Digest, DigestMap};
use crate::mempool::messages::PeerAddr;
use vstd::prelude::*;

verus! {

/// What the router has the network do.
pub enum RouterAction {
    /// Get ready to send to an address that was not sent to before.
    Connect(PeerAddr),
    /// Send the confirmation of a transaction.
    Confirm(PeerAddr, Digest),
}

/// What a router holds.
#[verifier::ext_equal]
pub struct RouterState {
    /// Where each transaction that has not committed yet is to be confirmed.
    pub pending: Map<Digest, PeerAddr>,
    /// The addresses that were sent to.
    pub peers: Set<PeerAddr>,
}

impl RouterState {
    /// The router after a transaction was registered; the last registration counts.
    pub open spec fn registered(self, tx: Digest, addr: PeerAddr) -> Self {
        RouterState { pending: self.pending.insert(tx, addr), ..self }
    }

    /// The router after these transactions have committed.
    pub open spec fn committed(self, txs: Seq<Digest>) -> Self
        decreases txs.len(),
    {
        if txs.len() == 0 {
            self
        } else {
            let s = self.committed(txs.drop_last());
            let tx = txs.last();
            if s.pending.contains_key(tx) {
                RouterState {
                    pending: s.pending.remove(tx),
                    peers: s.peers.insert(s.pending[tx]),
                }
            } else {
                s
            }
        }
    }

    /// What the network does when these transactions commit: each that is registered is
    /// confirmed, in order, once.
    pub open spec fn confirms(self, txs: Seq<Digest>) -> Seq<RouterAction>
        decreases txs.len(),
    {
        if txs.len() == 0 {
            Seq::empty()
        } else {
            let s = self.committed(txs.drop_last());
            let before = self.confirms(txs.drop_last());
            let tx = txs.last();
            if s.pending.contains_key(tx) {
                let addr = s.pending[tx];
                (if s.peers.contains(addr) {
                    before
                } else {
                    before.push(RouterAction::Connect(addr))
                }).push(RouterAction::Confirm(addr, tx))
            } else {
                before
            }
        }
    }
}

/// Remembers where to confirm each transaction.
pub struct ConfirmationRouter {
    pending: DigestMap<PeerAddr>,
    peers: Vec<PeerAddr>,
}

impl View for ConfirmationRouter {
    type V = RouterState;

    closed spec fn view(&self) -> RouterState {
        RouterState { pending: self.pending@, peers: self.peers@.to_set() }
    }
}

impl ConfirmationRouter {
    pub fn new() -> (r: Self)
        ensures
            r@ == (RouterState { pending: Map::empty(), peers: Set::empty() }),
    {
        let r = ConfirmationRouter { pending: DigestMap::new(), peers: Vec::new() };
        assert(r@.peers =~= Set::empty());
        r
    }

    /// A client wants the transaction with this hash confirmed at `addr`.
    pub fn register(&mut self, tx: Digest, addr: PeerAddr)
        ensures
            final(self)@ == old(self)@.registered(tx, addr),
    {
        self.pending.insert(tx, addr);
    }

    /// Whether `addr` was sent to before.
    fn knows(&self, addr: PeerAddr) -> (r: bool)
        ensures
            r == self@.peers.contains(addr),
    {
        let mut i: usize = 0;
        while i < self.peers.len()
            invariant
                i <= self.peers@.len(),
                forall|j: int| 0 <= j < i ==> self.peers@[j] != addr,
            decreases self.peers@.len() - i,
        {
            if self.peers[i] == addr {
                return true;
            }
            i = i + 1;
        }
        false
    }

    /// A batch has committed; `txs` are the hashes of its transactions, in order.
    pub fn on_committed(&mut self, txs: &Vec<Digest>) -> (actions: Vec<RouterAction>)
        ensures
            final(self)@ == old(self)@.committed(txs@),
            actions@ == old(self)@.confirms(txs@),
    {
        let ghost s0 = self@;
        let mut actions: Vec<RouterAction> = Vec::new();
        let mut i: usize = 0;
        assert(txs@.take(0) =~= Seq::empty());
        while i < txs.len()
            invariant
                i <= txs@.len(),
                self@ == s0.committed(txs@.take(i as int)),
                actions@ == s0.confirms(txs@.take(i as int)),
            decreases txs@.len() - i,
        {
            let tx: Digest = txs[i];
            proof {
                assert(txs@.take(i + 1).drop_last() =~= txs@.take(i as int));
                assert(txs@.take(i + 1).last() == tx);
            }
            if let Some(addr) = self.pending.remove(tx) {
                if !self.knows(addr) {
                    let ghost known = self.peers@;
                    self.peers.push(addr);
                    actions.push(RouterAction::Connect(addr));
                    proof {
                        let p = self.peers@;
                        assert(p[known.len() as int] == addr);
                        assert forall|x: PeerAddr| known.contains(x) implies p.contains(x) by {
                            let n = choose|n: int| 0 <= n < known.len() && known[n] == x;
                            assert(p[n] == x);
                        }
                        assert(p.to_set() =~= known.to_set().insert(addr));
                    }
                }
                actions.push(RouterAction::Confirm(addr, tx));
                assert(self@ =~= s0.committed(txs@.take(i + 1)));
            }
            i = i + 1;
        }
        assert(txs@.take(i as int) =~= txs@);
        actions
    }
}

/// A transaction is confirmed at most once: after a commit, none of the transactions that were
/// in it is pending.
pub proof fn law_confirmed_once(s: RouterState, txs: Seq<Digest>)
    ensures
        forall|i: int|
            0 <= i < txs.len() ==> !s.committed(txs).pending.contains_key(#[trigger] txs[i]),
        s.committed(txs).pending.submap_of(s.pending),
    decreases txs.len(),
{
    if txs.len() > 0 {
        law_confirmed_once(s, txs.drop_last());
        let t = s.committed(txs.drop_last());
        assert forall|i: int| 0 <= i < txs.len() implies !s.committed(txs).pending.contains_key(
            #[trigger] txs[i],
        ) by {
            if i < txs.len() - 1 {
                assert(txs.drop_last()[i] == txs[i]);
            }
        }
    }
}

/// A registered transaction is confirmed at the address it was registered with when a batch
/// that holds it commits.
pub proof fn law_registered_is_confirmed(s: RouterState, txs: Seq<Digest>, n: int)
    requires
        0 <= n < txs.len(),
        s.pending.contains_key(txs[n]),
    ensures
        s.confirms(txs).contains(RouterAction::Confirm(s.pending[txs[n]], txs[n])),
    decreases txs.len(),
{
    let a = txs.drop_last();
    let goal = RouterAction::Confirm(s.pending[txs[n]], txs[n]);
    let all = s.confirms(txs);
    law_confirmed_once(s, a);
    if n < txs.len() - 1 {
        assert(a[n] == txs[n]);
        law_registered_is_confirmed(s, a, n);
        let before = s.confirms(a);
        let i = choose|i: int| 0 <= i < before.len() && before[i] == goal;
        assert(all[i] == goal);
    } else if a.contains(txs[n]) {
        let m = choose|m: int| 0 <= m < a.len() && a[m] == txs[n];
        law_registered_is_confirmed(s, a, m);
        let before = s.confirms(a);
        let i = choose|i: int| 0 <= i < before.len() && before[i] == goal;
        assert(all[i] == goal);
    } else {
        lemma_untouched(s, a, txs[n]);
        assert(all[all.len() - 1] == goal);
    }
}

/// What has not committed stays registered as it was.
proof fn lemma_untouched(s: RouterState, txs: Seq<Digest>, tx: Digest)
    requires
        !txs.contains(tx),
        s.pending.contains_key(tx),
    ensures
        s.committed(txs).pending.contains_key(tx),
        s.committed(txs).pending[tx] == s.pending[tx],
    decreases txs.len(),
{
    if txs.len() > 0 {
        assert(txs[txs.len() - 1] != tx);
        assert(!txs.drop_last().contains(tx)) by {
            if txs.drop_last().contains(tx) {
                let m = choose|m: int|
                    0 <= m < txs.drop_last().len() && txs.drop_last()[m] == tx;
                assert(txs[m] == tx);
            }
        }
        lemma_untouched(s, txs.drop_last(), tx);
    }
}

} // verus!
