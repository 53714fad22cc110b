//! What happens to a sealed batch, and how a batch is read back.

use crate::digest::Digest;
use crate::hash::{do_hash, hash_of};
use crate::mempool::batch::CachedBatch;
use crate::mempool::cache::{filed, BatchCache};
use std::sync::Arc;
use vstd::prelude::*;

verus! {

/// A batch with its hash.
pub struct HashedBatch<Tx> {
    pub hash: Digest,
    pub batch: Arc<CachedBatch<Tx>>,
}

impl<Tx> HashedBatch<Tx> {
    /// The same batch, shared.
    pub fn share(&self) -> (b: Self)
        ensures
            b == *self,
    {
        HashedBatch { hash: self.hash, batch: Arc::clone(&self.batch) }
    }
}

/// What is to be written to the durable store: a serialized batch, under the bytes of its hash.
pub struct StoreWrite {
    pub key: Vec<u8>,
    pub bytes: Vec<u8>,
}

/// Files a batch in the cache, and says what is to be written to the durable store; `wire` is
/// the serialized batch. The batch is in the cache before anything else happens, so a read in
/// between finds it.
pub fn persist_batch<Tx>(
    cache: &mut BatchCache<Tx>,
    hash: Digest,
    batch: Arc<CachedBatch<Tx>>,
    wire: Vec<u8>,
) -> (w: StoreWrite)
    requires
        old(cache).wf(),
    ensures
        final(cache).wf(),
        final(cache)@ == filed(old(cache)@, hash, batch),
        w.key@ == hash.bytes(),
        w.bytes == wire,
{
    cache.insert(hash, batch);
    StoreWrite { key: hash.to_vec(), bytes: wire }
}

/// How a read goes on.
pub enum BatchRead<Tx> {
    /// The cache has the batch.
    Hit(Arc<CachedBatch<Tx>>),
    /// The durable store is to be asked for this key.
    Miss { key: Vec<u8> },
}

/// Reads a batch: the cache comes first, the durable store second.
pub fn read_batch<Tx>(cache: &BatchCache<Tx>, hash: Digest) -> (r: BatchRead<Tx>)
    requires
        cache.wf(),
    ensures
        match r {
            BatchRead::Hit(b) => cache@.contains_key(hash) && b == cache@[hash],
            BatchRead::Miss { key } => !cache@.contains_key(hash) && key@ == hash.bytes(),
        },
{
    match cache.get(&hash) {
        Some(b) => BatchRead::Hit(b),
        None => BatchRead::Miss { key: hash.to_vec() },
    }
}

/// Ends a read that went on to the durable store. What was found there, and could be decoded,
/// is filed in the cache for the next read.
pub fn finish_read<Tx>(
    cache: &mut BatchCache<Tx>,
    hash: Digest,
    found: Option<CachedBatch<Tx>>,
) -> (r: Option<Arc<CachedBatch<Tx>>>)
    requires
        old(cache).wf(),
    ensures
        final(cache).wf(),
        r is Some == found is Some,
        r matches Some(b) ==> *b == found->0 && final(cache)@ == filed(old(cache)@, hash, b),
        r is None ==> final(cache)@ == old(cache)@,
{
    match found {
        Some(b) => {
            let b = Arc::new(b);
            cache.insert(hash, Arc::clone(&b));
            Some(b)
        },
        None => None,
    }
}

/// Takes sealed batches in.
pub struct Processor;

impl Processor {
    /// Takes in a sealed batch; `wire` is its serialized form. Its hash is the one that is kept
    /// with it, or else that of `wire`. The batch is filed in the cache; then the consensus
    /// engine is to be told of it, and then it is to be written to the durable store.
    pub fn process<Tx>(
        cache: &mut BatchCache<Tx>,
        batch: Arc<CachedBatch<Tx>>,
        wire: Vec<u8>,
    ) -> (r: (HashedBatch<Tx>, StoreWrite))
        requires
            old(cache).wf(),
        ensures
            final(cache).wf(),
            r.0.hash == (match batch.hash {
                Some(kept) => kept,
                None => hash_of(wire@),
            }),
            r.0.batch == batch,
            r.1.key@ == r.0.hash.bytes(),
            r.1.bytes == wire,
            final(cache)@ == filed(old(cache)@, r.0.hash, batch),
    {
        let hash: Digest = match batch.cached_hash() {
            Some(kept) => kept,
            None => do_hash(wire.as_slice()),
        };
        let w = persist_batch(cache, hash, Arc::clone(&batch), wire);
        (HashedBatch { hash, batch }, w)
    }
}

} // verus!
