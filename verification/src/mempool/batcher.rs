//! Collects transactions into batches, in the order they arrive.

use crate::mempool::batch::CachedBatch;
use crate::mempool::sealer::Sealer;
use std::sync::Arc;
use vstd::prelude::*;

verus! {

/// The transactions that wait for their batch to be sealed.
pub struct Batcher<Tx> {
    pub queue_txs: Vec<Arc<Tx>>,
}

impl<Tx> Batcher<Tx> {
    pub fn new() -> (b: Self)
        ensures
            b.queue_txs@ == Seq::<Arc<Tx>>::empty(),
    {
        Batcher { queue_txs: Vec::new() }
    }

    /// Queues a transaction. Once the sealer says so, the whole queue is handed out as a batch
    /// and a new queue begins.
    pub fn push<S: Sealer<Tx>>(&mut self, tx: Arc<Tx>, sealer: &S) -> (r: Option<
        Arc<CachedBatch<Tx>>,
    >)
        requires
            old(self).queue_txs@.len() < usize::MAX,
        ensures
            r is Some == sealer.seals((old(self).queue_txs@.len() + 1) as usize),
            r matches Some(b) ==> {
                &&& b.payload@ == old(self).queue_txs@.push(tx)
                &&& b.hash is None
                &&& b.tx_hashes is None
                &&& final(self).queue_txs@ == Seq::<Arc<Tx>>::empty()
            },
            r is None ==> final(self).queue_txs@ == old(self).queue_txs@.push(tx),
    {
        self.queue_txs.push(tx);
        if sealer.should_seal(self.queue_txs.len()) {
            let mut payload: Vec<Arc<Tx>> = Vec::new();
            std::mem::swap(&mut payload, &mut self.queue_txs);
            Some(Arc::new(CachedBatch::new(payload)))
        } else {
            None
        }
    }
}

} // verus!
