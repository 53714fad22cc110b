//! Batches by their hash, in memory.

use crate::digest::Digest;
use crate::mempool::batch::CachedBatch;
use dashmap::DashMap;
use std::sync::Arc;
use vstd::prelude::*;

verus! {

/// How many batches a cache is made for, unless something else was asked for.
pub const DEFAULT_CACHE_CAP: usize = 1024;

/// The concurrent hash map of the `dashmap` crate; opaque here.
#[verifier::external_type_specification]
#[verifier::external_body]
#[verifier::reject_recursive_types(K)]
#[verifier::reject_recursive_types(V)]
#[verifier::reject_recursive_types(S)]
pub struct ExDashMap<K, V, S>(DashMap<K, V, S>);

/// What a `DashMap` holds.
pub uninterp spec fn slot_table(m: DashMap<(u128, u128), usize>) -> Map<(u128, u128), usize>;

/// `DashMap::new`: a map without entries.
#[verifier::external_body]
fn dash_new() -> (m: DashMap<(u128, u128), usize>)
    ensures
        forall|k: (u128, u128)| !(#[trigger] slot_table(m).contains_key(k)),
{
    DashMap::new()
}

/// `DashMap::insert`, through the only reference to the map: the key now maps to the value and
/// every other key is as before.
#[verifier::external_body]
fn dash_insert(m: &mut DashMap<(u128, u128), usize>, k: (u128, u128), v: usize)
    ensures
        slot_table(*final(m)) == slot_table(*old(m)).insert(k, v),
{
    m.insert(k, v);
}

/// `DashMap::contains_key`: whether the key has a value.
#[verifier::external_body]
fn dash_contains_key(m: &DashMap<(u128, u128), usize>, k: &(u128, u128)) -> (r: bool)
    ensures
        r == slot_table(*m).contains_key(*k),
{
    m.contains_key(k)
}

/// `DashMap::get`: a copy of the value of the key, if it has one.
#[verifier::external_body]
fn dash_get(m: &DashMap<(u128, u128), usize>, k: &(u128, u128)) -> (r: Option<usize>)
    ensures
        r == (if slot_table(*m).contains_key(*k) { Some(slot_table(*m)[*k]) } else { None }),
{
    m.get(k).map(|e| *e.value())
}

/// `DashMap::len`: how many keys there are.
#[verifier::external_body]
fn dash_len(m: &DashMap<(u128, u128), usize>) -> (n: usize)
    ensures
        n == slot_table(*m).dom().len(),
{
    m.len()
}

/// The batches that this node has seen. Nothing is ever dropped from it.
pub struct BatchCache<Tx> {
    /// Where in `slots` the batch of each hash is.
    map: DashMap<(u128, u128), usize>,
    slots: Vec<Arc<CachedBatch<Tx>>>,
}

/// A digest as a pair of integers.
spec fn pair(h: Digest) -> (u128, u128) {
    (h.hi, h.lo)
}

/// What is filed after a batch was filed under its hash: the first writer wins.
pub open spec fn filed<Tx>(
    m: Map<Digest, Arc<CachedBatch<Tx>>>,
    hash: Digest,
    batch: Arc<CachedBatch<Tx>>,
) -> Map<Digest, Arc<CachedBatch<Tx>>> {
    if m.contains_key(hash) {
        m
    } else {
        m.insert(hash, batch)
    }
}

/// A second filing under the same hash changes nothing, what is filed is found again, and nothing
/// that was filed is lost.
pub proof fn law_first_writer_wins<Tx>(
    m: Map<Digest, Arc<CachedBatch<Tx>>>,
    hash: Digest,
    first: Arc<CachedBatch<Tx>>,
    second: Arc<CachedBatch<Tx>>,
)
    ensures
        filed(filed(m, hash, first), hash, second) == filed(m, hash, first),
        filed(m, hash, first).contains_key(hash),
        !m.contains_key(hash) ==> filed(m, hash, first)[hash] == first,
        m.contains_key(hash) ==> filed(m, hash, first)[hash] == m[hash],
        filed(m, hash, first).dom() == m.dom().insert(hash),
        m.submap_of(filed(m, hash, first)),
{
    assert(filed(m, hash, first).dom() =~= m.dom().insert(hash));
}

impl<Tx> View for BatchCache<Tx> {
    type V = Map<Digest, Arc<CachedBatch<Tx>>>;

    closed spec fn view(&self) -> Map<Digest, Arc<CachedBatch<Tx>>> {
        Map::new(
            |h: Digest| slot_table(self.map).contains_key(pair(h)),
            |h: Digest| self.slots@[slot_table(self.map)[pair(h)] as int],
        )
    }
}

impl<Tx> BatchCache<Tx> {
    /// Every hash has its slot.
    pub closed spec fn wf(&self) -> bool {
        &&& slot_table(self.map).dom().finite()
        &&& forall|k: (u128, u128)| #[trigger]
            slot_table(self.map).contains_key(k) ==> slot_table(self.map)[k] < self.slots@.len()
    }

    /// An empty cache. It grows without bound, so `cap` has no bearing.
    pub fn new(cap: usize) -> (c: Self)
        ensures
            c.wf(),
            c@ == Map::<Digest, Arc<CachedBatch<Tx>>>::empty(),
    {
        let c = BatchCache { map: dash_new(), slots: Vec::new() };
        assert(slot_table(c.map).dom() =~= Set::empty());
        assert(c@ =~= Map::empty());
        c
    }

    /// Files a batch under its hash, unless something is filed there already.
    pub fn insert(&mut self, hash: Digest, batch: Arc<CachedBatch<Tx>>)
        requires
            old(self).wf(),
        ensures
            final(self).wf(),
            final(self)@ == filed(old(self)@, hash, batch),
    {
        let k: (u128, u128) = (hash.hi, hash.lo);
        if dash_contains_key(&self.map, &k) {
            return ;
        }
        let slot: usize = self.slots.len();
        self.slots.push(batch);
        dash_insert(&mut self.map, k, slot);
        assert(self@ =~= old(self)@.insert(hash, batch));
    }

    /// The batch that is filed under a hash.
    pub fn get(&self, hash: &Digest) -> (r: Option<Arc<CachedBatch<Tx>>>)
        requires
            self.wf(),
        ensures
            r == (if self@.contains_key(*hash) { Some(self@[*hash]) } else { None }),
    {
        match dash_get(&self.map, &(hash.hi, hash.lo)) {
            Some(slot) => Some(Arc::clone(&self.slots[slot])),
            None => None,
        }
    }

    /// How many batches there are.
    pub fn len(&self) -> (n: usize)
        requires
            self.wf(),
        ensures
            n == self@.dom().len(),
    {
        proof {
            let f = |k: (u128, u128)| Digest { hi: k.0, lo: k.1 };
            assert forall|h: Digest| #[trigger] self@.dom().contains(h) implies slot_table(
                self.map,
            ).dom().map(f).contains(h) by {
                assert(f(pair(h)) == h);
            }
            assert(slot_table(self.map).dom().map(f) =~= self@.dom());
            vstd::set_lib::lemma_map_size(slot_table(self.map).dom(), self@.dom(), f);
        }
        dash_len(&self.map)
    }
}

} // verus!
