//! A batch of transactions, with the content hashes that are known of it.
//!
//! On the wire a batch is nothing but the list of its transactions, and its hash is the SHA-256
//! of exactly these bytes.

use crate::digest::Digest;
use crate::hash::{do_hash, hash_all, hash_of, hashes_of};
use std::sync::Arc;
use vstd::prelude::*;

verus! {

/// A batch of transactions. Each hash is filled in at most once and then kept.
pub struct CachedBatch<Tx> {
    pub payload: Vec<Arc<Tx>>,
    pub hash: Option<Digest>,
    pub tx_hashes: Option<Arc<Vec<Digest>>>,
}

impl<Tx> CachedBatch<Tx> {
    /// A batch of which no hash is known yet.
    pub fn new(payload: Vec<Arc<Tx>>) -> (b: Self)
        ensures
            b.payload == payload,
            b.hash is None,
            b.tx_hashes is None,
    {
        CachedBatch { payload, hash: None, tx_hashes: None }
    }

    /// A batch whose transaction hashes were computed on the way in.
    pub fn new_with_tx_hashes(payload: Vec<Arc<Tx>>, tx_hashes: Arc<Vec<Digest>>) -> (b: Self)
        requires
            payload@.len() == tx_hashes@.len(),
        ensures
            b.payload == payload,
            b.hash is None,
            b.tx_hashes == Some(tx_hashes),
    {
        CachedBatch { payload, hash: None, tx_hashes: Some(tx_hashes) }
    }

    /// A batch that was decoded from `wire`; its hash is known from then on.
    pub fn decoded(payload: Vec<Arc<Tx>>, wire: &[u8]) -> (b: Self)
        ensures
            b.payload == payload,
            b.hash == Some(hash_of(wire@)),
            b.tx_hashes is None,
    {
        CachedBatch { payload, hash: Some(do_hash(wire)), tx_hashes: None }
    }

    /// The batch hash if it is known already.
    pub fn cached_hash(&self) -> (h: Option<Digest>)
        ensures
            h == self.hash,
    {
        self.hash
    }

    /// The transaction hashes if they are known already.
    pub fn cached_tx_hashes(&self) -> (h: Option<Arc<Vec<Digest>>>)
        ensures
            h == self.tx_hashes,
    {
        match &self.tx_hashes {
            None => None,
            Some(h) => Some(Arc::clone(h)),
        }
    }

    /// The batch hash: the one that was kept, or else that of `wire`, the serialized batch,
    /// which is then kept.
    pub fn hash(&mut self, wire: &[u8]) -> (h: Digest)
        ensures
            h == (match old(self).hash {
                Some(kept) => kept,
                None => hash_of(wire@),
            }),
            final(self).hash == Some(h),
            final(self).tx_hashes == old(self).tx_hashes,
            final(self).payload == old(self).payload,
    {
        match self.hash {
            Some(kept) => kept,
            None => {
                let h: Digest = do_hash(wire);
                self.hash = Some(h);
                h
            },
        }
    }

    /// The transaction hashes: those that were kept, or else those of `wires`, the serialized
    /// transactions in order, which are then kept.
    pub fn tx_hashes(&mut self, wires: &Vec<Vec<u8>>) -> (h: Arc<Vec<Digest>>)
        ensures
            old(self).tx_hashes matches Some(kept) ==> h == kept,
            old(self).tx_hashes is None ==> h@ == hashes_of(wires@),
            final(self).tx_hashes == Some(h),
            final(self).hash == old(self).hash,
            final(self).payload == old(self).payload,
    {
        match &self.tx_hashes {
            Some(kept) => Arc::clone(kept),
            None => {
                let h = Arc::new(hash_all(wires));
                self.tx_hashes = Some(Arc::clone(&h));
                h
            },
        }
    }
}

impl<Tx> Clone for CachedBatch<Tx> {
    /// A copy that shares the transactions, and knows the hashes that are known here.
    fn clone(&self) -> (b: Self)
        ensures
            b.payload@ == self.payload@,
            b.hash == self.hash,
            b.tx_hashes == self.tx_hashes,
    {
        let mut payload: Vec<Arc<Tx>> = Vec::new();
        let mut i: usize = 0;
        while i < self.payload.len()
            invariant
                i <= self.payload@.len(),
                payload@ == self.payload@.take(i as int),
            decreases self.payload@.len() - i,
        {
            payload.push(Arc::clone(&self.payload[i]));
            assert(payload@ =~= self.payload@.take(i + 1));
            i = i + 1;
        }
        assert(self.payload@.take(i as int) =~= self.payload@);
        CachedBatch { payload, hash: self.hash, tx_hashes: self.cached_tx_hashes() }
    }
}

} // verus!
