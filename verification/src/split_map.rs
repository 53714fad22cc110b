//! Maps keyed by two integers, as a table of tables.

use crate::fnv_map::{FnvMap, MapKey};
use vstd::prelude::*;

verus! {

/// A key that is made of two integers.
pub trait SplitKey: Sized {
    type Hi: MapKey;

    type Lo: MapKey;

    spec fn hi(self) -> Self::Hi;

    spec fn lo(self) -> Self::Lo;

    spec fn joined(hi: Self::Hi, lo: Self::Lo) -> Self;

    /// The two parts determine the key.
    proof fn lemma_split(self)
        ensures
            Self::joined(self.hi(), self.lo()) == self,
    ;

    /// The parts of a joined key are those it was joined from.
    proof fn lemma_join(hi: Self::Hi, lo: Self::Lo)
        ensures
            Self::joined(hi, lo).hi() == hi,
            Self::joined(hi, lo).lo() == lo,
    ;

    fn split(&self) -> (p: (Self::Hi, Self::Lo))
        ensures
            p.0 == self.hi(),
            p.1 == self.lo(),
    ;

    fn join(hi: Self::Hi, lo: Self::Lo) -> (k: Self)
        ensures
            k == Self::joined(hi, lo),
    ;
}

/// A finite map from two-part keys to values.
#[verifier::reject_recursive_types(K)]
pub struct SplitMap<K: SplitKey, V> {
    rows: FnvMap<K::Hi, FnvMap<K::Lo, V>>,
}

/// The map that a table of tables stands for.
spec fn table_view<K: SplitKey, V>(rows: Map<K::Hi, FnvMap<K::Lo, V>>) -> Map<K, V> {
    Map::new(
        |k: K| rows.contains_key(k.hi()) && rows[k.hi()]@.contains_key(k.lo()),
        |k: K| rows[k.hi()]@[k.lo()],
    )
}

impl<K: SplitKey, V> View for SplitMap<K, V> {
    type V = Map<K, V>;

    closed spec fn view(&self) -> Map<K, V> {
        table_view(self.rows@)
    }
}

impl<K: SplitKey, V> SplitMap<K, V> {
    #[verifier::type_invariant]
    spec fn inv(self) -> bool {
        table_view::<K, V>(self.rows@).dom().finite()
    }

    pub fn new() -> (m: Self)
        ensures
            m@ == Map::<K, V>::empty(),
    {
        let rows: FnvMap<K::Hi, FnvMap<K::Lo, V>> = FnvMap::new();
        assert(table_view::<K, V>(rows@) =~= Map::<K, V>::empty());
        SplitMap { rows }
    }

    pub fn get(&self, k: K) -> (r: Option<&V>)
        ensures
            r == (if self@.contains_key(k) { Some(&self@[k]) } else { None }),
    {
        let (hi, lo) = k.split();
        match self.rows.get(hi) {
            None => None,
            Some(row) => row.get(lo),
        }
    }

    pub fn contains_key(&self, k: K) -> (r: bool)
        ensures
            r == self@.contains_key(k),
    {
        self.get(k).is_some()
    }

    pub fn insert(&mut self, k: K, v: V) -> (r: Option<V>)
        ensures
            final(self)@ == old(self)@.insert(k, v),
            r == (if old(self)@.contains_key(k) { Some(old(self)@[k]) } else { None }),
    {
        proof {
            use_type_invariant(&*self);
        }
        let (hi, lo) = k.split();
        let mut rows: FnvMap<K::Hi, FnvMap<K::Lo, V>> = FnvMap::new();
        assert(table_view::<K, V>(rows@) =~= Map::<K, V>::empty());
        std::mem::swap(&mut rows, &mut self.rows);
        let ghost before = rows@;
        let mut row = match rows.remove(hi) {
            Some(row) => row,
            None => FnvMap::new(),
        };
        let r = row.insert(lo, v);
        rows.insert(hi, row);
        proof {
            assert forall|x: K| x.hi() == hi && x.lo() == lo implies x == k by {
                x.lemma_split();
                k.lemma_split();
            }
            assert(table_view::<K, V>(rows@) =~= table_view::<K, V>(before).insert(k, v));
        }
        self.rows = rows;
        r
    }

    pub fn remove(&mut self, k: K) -> (r: Option<V>)
        ensures
            final(self)@ == old(self)@.remove(k),
            r == (if old(self)@.contains_key(k) { Some(old(self)@[k]) } else { None }),
            old(self)@.dom().finite(),
            final(self)@.dom().finite(),
    {
        proof {
            use_type_invariant(&*self);
        }
        let (hi, lo) = k.split();
        let mut rows: FnvMap<K::Hi, FnvMap<K::Lo, V>> = FnvMap::new();
        assert(table_view::<K, V>(rows@) =~= Map::<K, V>::empty());
        std::mem::swap(&mut rows, &mut self.rows);
        let ghost before = rows@;
        let r = match rows.remove(hi) {
            Some(mut row) => {
                let r = row.remove(lo);
                if row.len() > 0 {
                    rows.insert(hi, row);
                } else {
                    assert(row@.dom() =~= Set::empty());
                }
                r
            },
            None => None,
        };
        proof {
            assert forall|x: K| x.hi() == hi && x.lo() == lo implies x == k by {
                x.lemma_split();
                k.lemma_split();
            }
            assert(table_view::<K, V>(rows@) =~= table_view::<K, V>(before).remove(k));
        }
        self.rows = rows;
        r
    }

    /// Every key once, in no particular order.
    pub fn keys(&self) -> (ks: Vec<K>)
        ensures
            ks@.to_set() == self@.dom(),
            ks@.no_duplicates(),
            self@.dom().finite(),
    {
        proof {
            use_type_invariant(self);
        }
        let mut ks: Vec<K> = Vec::new();
        let his = self.rows.keys();
        let mut i: usize = 0;
        while i < his.len()
            invariant
                i <= his@.len(),
                his@.no_duplicates(),
                his@.to_set() == self.rows@.dom(),
                ks@.no_duplicates(),
                forall|k: K|
                    #[trigger] ks@.contains(k) <==> self@.contains_key(k) && his@.take(
                        i as int,
                    ).contains(k.hi()),
            decreases his@.len() - i,
        {
            let hi = his[i];
            assert(his@.to_set().contains(his@[i as int]));
            let row = self.rows.get(hi).unwrap();
            let los = row.keys();
            let ghost before = ks@;
            assert(!his@.take(i as int).contains(hi)) by {
                if his@.take(i as int).contains(hi) {
                    let j = choose|j: int| 0 <= j < i && his@.take(i as int)[j] == hi;
                    assert(his@[j] == his@[i as int]);
                }
            }
            let mut j: usize = 0;
            assert(los@.take(0) =~= Seq::empty());
            while j < los.len()
                invariant
                    j <= los@.len(),
                    i < his@.len(),
                    hi == his@[i as int],
                    los@.no_duplicates(),
                    self.rows@.contains_key(hi),
                    los@.to_set() == self.rows@[hi]@.dom(),
                    ks@.no_duplicates(),
                    forall|k: K| #[trigger] before.contains(k) ==> k.hi() != hi,
                    forall|k: K|
                        #[trigger] ks@.contains(k) <==> before.contains(k) || (k.hi() == hi
                            && los@.take(j as int).contains(k.lo())),
                decreases los@.len() - j,
            {
                let lo = los[j];
                let k = K::join(hi, lo);
                proof {
                    K::lemma_join(hi, lo);
                    assert(!los@.take(j as int).contains(lo)) by {
                        if los@.take(j as int).contains(lo) {
                            let m = choose|m: int| 0 <= m < j && los@.take(j as int)[m] == lo;
                            assert(los@[m] == los@[j as int]);
                        }
                    }
                    assert(los@.take(j + 1) =~= los@.take(j as int).push(lo));
                }
                let ghost prev = ks@;
                assert(!prev.contains(k));
                ks.push(k);
                proof {
                    assert forall|x: K| #[trigger] ks@.contains(x) <==> before.contains(x) || (x.hi()
                        == hi && los@.take(j + 1).contains(x.lo())) by {
                        x.lemma_split();
                        vstd::seq_lib::lemma_seq_contains_after_push(prev, k, x);
                        vstd::seq_lib::lemma_seq_contains_after_push(
                            los@.take(j as int),
                            lo,
                            x.lo(),
                        );
                    }
                }
                j = j + 1;
            }
            proof {
                assert(los@.take(los@.len() as int) =~= los@);
                assert(his@.take(i + 1) =~= his@.take(i as int).push(hi));
                assert forall|k: K|
                    #[trigger] ks@.contains(k) <==> self@.contains_key(k) && his@.take(
                        i + 1,
                    ).contains(k.hi()) by {
                    vstd::seq_lib::lemma_seq_contains_after_push(his@.take(i as int), hi, k.hi());
                    assert(los@.contains(k.lo()) <==> los@.to_set().contains(k.lo()));
                }
            }
            i = i + 1;
        }
        proof {
            assert(his@.take(his@.len() as int) =~= his@);
            assert forall|k: K| ks@.to_set().contains(k) <==> self@.dom().contains(k) by {
                assert(ks@.contains(k) <==> ks@.to_set().contains(k));
                if self@.contains_key(k) {
                    assert(his@.to_set().contains(k.hi()));
                }
            }
            assert(ks@.to_set() =~= self@.dom());
        }
        ks
    }
}

} // verus!
