//! Hash maps over the FNV hasher, keyed by integers.

use fnv::{FnvHashMap, FnvHasher};
use std::hash::{BuildHasherDefault, Hash};
use vstd::prelude::*;
use vstd::std_specs::hash::obeys_key_model;

verus! {

/// The hasher of the `fnv` crate; opaque here.
#[verifier::external_type_specification]
#[verifier::external_body]
pub struct ExFnvHasher(FnvHasher);

/// The hash builder that makes a fresh default hasher for every key; opaque here.
#[verifier::external_type_specification]
#[verifier::external_body]
#[verifier::reject_recursive_types(H)]
pub struct ExBuildHasherDefault<H>(BuildHasherDefault<H>);

/// `FnvHashMap::insert`: the key now maps to the value, every other key is as before, and the
/// value that the key had is handed back. `FnvHasher` starts from a constant and its state
/// depends on the bytes written alone, so equal keys always meet.
#[verifier::external_body]
fn fnv_insert<K: Eq + Hash, V>(m: &mut FnvHashMap<K, V>, k: K, v: V) -> (r: Option<V>)
    requires
        obeys_key_model::<K>(),
    ensures
        final(m)@ == old(m)@.insert(k, v),
        r == (if old(m)@.contains_key(k) { Some(old(m)@[k]) } else { None }),
{
    m.insert(k, v)
}

/// `FnvHashMap::remove`: the key is gone, every other key is as before, and the value that the
/// key had is handed back. A map never has infinitely many keys.
#[verifier::external_body]
fn fnv_remove<K: Eq + Hash, V>(m: &mut FnvHashMap<K, V>, k: &K) -> (r: Option<V>)
    requires
        obeys_key_model::<K>(),
    ensures
        final(m)@ == old(m)@.remove(*k),
        final(m)@.dom().finite(),
        r == (if old(m)@.contains_key(*k) { Some(old(m)@[*k]) } else { None }),
{
    m.remove(k)
}

/// `FnvHashMap::get`: the value of the key, if it has one.
#[verifier::external_body]
fn fnv_get<'a, K: Eq + Hash, V>(m: &'a FnvHashMap<K, V>, k: &K) -> (r: Option<&'a V>)
    requires
        obeys_key_model::<K>(),
    ensures
        r == (if m@.contains_key(*k) { Some(&m@[*k]) } else { None }),
{
    m.get(k)
}

/// `FnvHashMap::len`: how many keys there are.
#[verifier::external_body]
fn fnv_len<K: Eq + Hash, V>(m: &FnvHashMap<K, V>) -> (n: usize)
    requires
        obeys_key_model::<K>(),
    ensures
        n == m@.dom().len(),
{
    m.len()
}

/// `FnvHashMap::keys`, collected: every key once, in no particular order.
#[verifier::external_body]
fn fnv_keys<K: Copy + Eq + Hash, V>(m: &FnvHashMap<K, V>) -> (ks: Vec<K>)
    requires
        obeys_key_model::<K>(),
    ensures
        ks@.to_set() == m@.dom(),
        ks@.no_duplicates(),
{
    m.keys().copied().collect()
}

/// An integer that can key an [`FnvMap`].
pub trait MapKey: Copy + Eq + Hash {
    /// The key type fits the hash-table model of the standard maps.
    proof fn key_model()
        ensures
            obeys_key_model::<Self>(),
    ;
}

impl MapKey for u16 {
    proof fn key_model() {
        broadcast use vstd::std_specs::hash::group_hash_axioms;
    }
}

impl MapKey for u64 {
    proof fn key_model() {
        broadcast use vstd::std_specs::hash::group_hash_axioms;
    }
}

impl MapKey for u128 {
    proof fn key_model() {
        broadcast use vstd::std_specs::hash::group_hash_axioms;
    }
}

/// A finite map from an integer to a value.
#[verifier::reject_recursive_types(K)]
pub struct FnvMap<K: MapKey, V> {
    inner: FnvHashMap<K, V>,
}

impl<K: MapKey, V> View for FnvMap<K, V> {
    type V = Map<K, V>;

    closed spec fn view(&self) -> Map<K, V> {
        self.inner@
    }
}

impl<K: MapKey, V> FnvMap<K, V> {
    pub fn new() -> (m: Self)
        ensures
            m@ == Map::<K, V>::empty(),
    {
        FnvMap { inner: FnvHashMap::default() }
    }

    pub fn get(&self, k: K) -> (r: Option<&V>)
        ensures
            r == (if self@.contains_key(k) { Some(&self@[k]) } else { None }),
    {
        proof {
            K::key_model();
        }
        fnv_get(&self.inner, &k)
    }

    pub fn insert(&mut self, k: K, v: V) -> (r: Option<V>)
        ensures
            final(self)@ == old(self)@.insert(k, v),
            r == (if old(self)@.contains_key(k) { Some(old(self)@[k]) } else { None }),
    {
        proof {
            K::key_model();
        }
        fnv_insert(&mut self.inner, k, v)
    }

    pub fn remove(&mut self, k: K) -> (r: Option<V>)
        ensures
            final(self)@ == old(self)@.remove(k),
            r == (if old(self)@.contains_key(k) { Some(old(self)@[k]) } else { None }),
            final(self)@.dom().finite(),
            old(self)@.dom().finite(),
    {
        proof {
            K::key_model();
        }
        let r = fnv_remove(&mut self.inner, &k);
        proof {
            assert(old(self)@.dom().subset_of(self@.dom().insert(k)));
            vstd::set_lib::lemma_set_subset_finite(self@.dom().insert(k), old(self)@.dom());
        }
        r
    }

    pub fn contains_key(&self, k: K) -> (r: bool)
        ensures
            r == self@.contains_key(k),
    {
        self.get(k).is_some()
    }

    /// Every key once, in no particular order.
    pub fn keys(&self) -> (ks: Vec<K>)
        ensures
            ks@.to_set() == self@.dom(),
            ks@.no_duplicates(),
    {
        proof {
            K::key_model();
        }
        fnv_keys(&self.inner)
    }

    pub fn len(&self) -> (n: usize)
        ensures
            n == self@.dom().len(),
    {
        proof {
            K::key_model();
        }
        fnv_len(&self.inner)
    }
}

} // verus!
