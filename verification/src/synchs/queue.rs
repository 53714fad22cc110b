//! The transactions that wait to be proposed, in the order they came.

use crate::digest::Digest;
use std::sync::Arc;
use vstd::prelude::*;

verus! {

/// The queue without the transactions with these hashes.
pub open spec fn without<Tx>(q: Seq<(Digest, Arc<Tx>)>, hashes: Seq<Digest>) -> Seq<
    (Digest, Arc<Tx>),
> {
    q.filter(|e: (Digest, Arc<Tx>)| !hashes.contains(e.0))
}

/// The transactions of a part of the queue.
pub open spec fn txs_of<Tx>(q: Seq<(Digest, Arc<Tx>)>) -> Seq<Arc<Tx>> {
    Seq::new(q.len(), |i: int| q[i].1)
}

/// The transactions that wait.
pub struct TxQueue<Tx> {
    entries: Vec<(Digest, Arc<Tx>)>,
}

impl<Tx> View for TxQueue<Tx> {
    type V = Seq<(Digest, Arc<Tx>)>;

    closed spec fn view(&self) -> Seq<(Digest, Arc<Tx>)> {
        self.entries@
    }
}

/// Whether `h` is among these hashes.
fn among(hashes: &Vec<Digest>, h: Digest) -> (r: bool)
    ensures
        r == hashes@.contains(h),
{
    let mut i: usize = 0;
    while i < hashes.len()
        invariant
            i <= hashes@.len(),
            forall|j: int| 0 <= j < i ==> hashes@[j] != h,
        decreases hashes@.len() - i,
    {
        if hashes[i] == h {
            return true;
        }
        i = i + 1;
    }
    false
}

impl<Tx> TxQueue<Tx> {
    pub fn new() -> (q: Self)
        ensures
            q@ == Seq::<(Digest, Arc<Tx>)>::empty(),
    {
        TxQueue { entries: Vec::new() }
    }

    /// How many transactions wait.
    pub fn get_tx_pool_size(&self) -> (n: usize)
        ensures
            n == self@.len(),
    {
        self.entries.len()
    }

    /// Drops the transactions with these hashes.
    pub fn clear(&mut self, hashes: &Vec<Digest>)
        ensures
            final(self)@ == without(old(self)@, hashes@),
    {
        let mut kept: Vec<(Digest, Arc<Tx>)> = Vec::new();
        let ghost q = self@;
        let ghost keep = |e: (Digest, Arc<Tx>)| !hashes@.contains(e.0);
        let mut i: usize = 0;
        assert(q.take(0).filter(keep) =~= Seq::empty()) by {
            reveal(Seq::filter);
        }
        while i < self.entries.len()
            invariant
                i <= q.len(),
                q == self.entries@,
                keep == (|e: (Digest, Arc<Tx>)| !hashes@.contains(e.0)),
                kept@ == q.take(i as int).filter(keep),
            decreases q.len() - i,
        {
            proof {
                assert(q.take(i + 1).drop_last() =~= q.take(i as int));
                assert(q.take(i + 1).last() == q[i as int]);
                reveal(Seq::filter);
            }
            let h: Digest = self.entries[i].0;
            if !among(hashes, h) {
                kept.push((h, Arc::clone(&self.entries[i].1)));
            }
            i = i + 1;
        }
        assert(q.take(i as int) =~= q);
        self.entries = kept;
    }

    /// Adds a transaction at the end; if it waited already it does so no longer where it was.
    pub fn add_transaction(&mut self, hash: Digest, tx: Arc<Tx>)
        ensures
            final(self)@ == without(old(self)@, seq![hash]).push((hash, tx)),
    {
        let mut one: Vec<Digest> = Vec::new();
        one.push(hash);
        assert(one@ =~= seq![hash]);
        self.clear(&one);
        self.entries.push((hash, tx));
    }

    /// Takes the first `n` transactions out.
    pub fn cleave(&mut self, n: usize) -> (txs: Vec<Arc<Tx>>)
        requires
            n <= old(self)@.len(),
        ensures
            txs@ == txs_of(old(self)@.take(n as int)),
            final(self)@ == old(self)@.skip(n as int),
    {
        let ghost q = self@;
        let mut txs: Vec<Arc<Tx>> = Vec::new();
        let mut rest: Vec<(Digest, Arc<Tx>)> = Vec::new();
        let mut i: usize = 0;
        while i < self.entries.len()
            invariant
                i <= q.len(),
                n <= q.len(),
                q == self.entries@,
                txs@ == txs_of(q.take(if i < n { i as int } else { n as int })),
                rest@ == (if i < n { Seq::empty() } else { q.subrange(n as int, i as int) }),
            decreases q.len() - i,
        {
            let tx = Arc::clone(&self.entries[i].1);
            if i < n {
                txs.push(tx);
                assert(txs@ =~= txs_of(q.take(i + 1)));
                assert(rest@ =~= Seq::empty());
            } else {
                rest.push((self.entries[i].0, tx));
                assert(rest@ =~= q.subrange(n as int, i + 1));
            }
            i = i + 1;
            assert(i == n ==> rest@ =~= q.subrange(n as int, n as int));
        }
        assert(q.subrange(n as int, q.len() as int) =~= q.skip(n as int));
        assert(n == q.len() ==> q.skip(n as int) =~= Seq::empty());
        self.entries = rest;
        txs
    }
}

} // verus!
