//! Figures about a run: medians, means and totals of latencies.

use crate::digest::{Digest, DigestMap};
use vstd::prelude::*;
use vstd::relations::sorted_by;

verus! {

/// How many seconds a latency figure is taken over.
pub const LAT_WINDOW_SECS: u64 = 1;

/// The usual order.
pub open spec fn leq() -> spec_fn(u128, u128) -> bool {
    |a: u128, b: u128| a <= b
}

/// Whether `t` is `s` in order.
pub open spec fn is_sorted_form(t: Seq<u128>, s: Seq<u128>) -> bool {
    &&& t.to_multiset() == s.to_multiset()
    &&& forall|i: int, j: int| 0 <= i < j < t.len() ==> t[i] <= t[j]
}

/// The samples in order.
pub open spec fn in_order(s: Seq<u128>) -> Seq<u128> {
    choose|t: Seq<u128>| is_sorted_form(t, s)
}

/// The median of some samples: the middle one in order, or the mean of the two in the middle,
/// rounded down.
pub open spec fn median_of(s: Seq<u128>) -> u128 {
    let t = in_order(s);
    let mid = t.len() as int / 2;
    if t.len() % 2 == 0 {
        ((t[mid - 1] + t[mid]) / 2) as u128
    } else {
        t[mid]
    }
}

/// Whether the two samples in the middle can be added up.
pub open spec fn median_fits(s: Seq<u128>) -> bool {
    let t = in_order(s);
    let mid = t.len() as int / 2;
    t.len() > 0 && t.len() % 2 == 0 ==> t[mid - 1] + t[mid] <= u128::MAX
}

/// Two sequences in order with the same elements are the same.
proof fn lemma_order_unique(a: Seq<u128>, b: Seq<u128>)
    requires
        a.to_multiset() == b.to_multiset(),
        forall|i: int, j: int| 0 <= i < j < a.len() ==> a[i] <= a[j],
        forall|i: int, j: int| 0 <= i < j < b.len() ==> b[i] <= b[j],
    ensures
        a == b,
{
    assert(sorted_by(a, leq()));
    assert(sorted_by(b, leq()));
    vstd::seq_lib::lemma_sorted_unique(a, b, leq());
}

/// Merges two runs that are in order.
fn merge(a: &Vec<u128>, b: &Vec<u128>) -> (t: Vec<u128>)
    requires
        forall|i: int, j: int| 0 <= i < j < a@.len() ==> a@[i] <= a@[j],
        forall|i: int, j: int| 0 <= i < j < b@.len() ==> b@[i] <= b@[j],
    ensures
        is_sorted_form(t@, a@ + b@),
{
    let mut t: Vec<u128> = Vec::new();
    let mut i: usize = 0;
    let mut j: usize = 0;
    proof {
        assert(a@.take(0) + b@.take(0) =~= Seq::empty());
    }
    while i < a.len() || j < b.len()
        invariant
            i <= a@.len(),
            j <= b@.len(),
            forall|x: int, y: int| 0 <= x < y < a@.len() ==> a@[x] <= a@[y],
            forall|x: int, y: int| 0 <= x < y < b@.len() ==> b@[x] <= b@[y],
            t@.to_multiset() == (a@.take(i as int) + b@.take(j as int)).to_multiset(),
            forall|x: int, y: int| 0 <= x < y < t@.len() ==> t@[x] <= t@[y],
            forall|x: int, y: int| 0 <= x < t@.len() && i <= y < a@.len() ==> t@[x] <= a@[y],
            forall|x: int, y: int| 0 <= x < t@.len() && j <= y < b@.len() ==> t@[x] <= b@[y],
        decreases a@.len() - i + b@.len() - j,
    {
        let ghost t0 = t@;
        let ghost p = a@.take(i as int);
        let ghost q = b@.take(j as int);
        proof {
            broadcast use vstd::seq_lib::group_to_multiset_ensures;

            vstd::seq_lib::lemma_multiset_commutative(p, q);
        }
        if j >= b.len() || (i < a.len() && a[i] <= b[j]) {
            let v: u128 = a[i];
            t.push(v);
            i = i + 1;
            proof {
                broadcast use vstd::seq_lib::group_to_multiset_ensures;

                let p1 = a@.take(i as int);
                assert(p1 =~= p.push(v));
                vstd::seq_lib::lemma_multiset_commutative(p1, q);
                vstd::seq_lib::lemma_multiset_commutative(p, q);
                assert(t@.to_multiset() == t0.to_multiset().insert(v));
                assert((p1 + q).to_multiset() =~= (p + q).to_multiset().insert(v));
            }
        } else {
            let v: u128 = b[j];
            t.push(v);
            j = j + 1;
            proof {
                broadcast use vstd::seq_lib::group_to_multiset_ensures;

                let q1 = b@.take(j as int);
                assert(q1 =~= q.push(v));
                assert(p + q1 =~= (p + q).push(v));
                assert(t@.to_multiset() == t0.to_multiset().insert(v));
            }
        }
    }
    assert(a@.take(i as int) =~= a@);
    assert(b@.take(j as int) =~= b@);
    t
}

/// Puts samples in order.
fn sort(s: &Vec<u128>, from: usize, to: usize) -> (t: Vec<u128>)
    requires
        from <= to <= s@.len(),
    ensures
        is_sorted_form(t@, s@.subrange(from as int, to as int)),
        t@.len() == to - from,
    decreases to - from,
{
    let ghost all = s@.subrange(from as int, to as int);
    if to - from <= 1 {
        let mut t: Vec<u128> = Vec::new();
        if from < to {
            t.push(s[from]);
        }
        assert(t@ =~= all);
        t
    } else {
        let mid: usize = from + (to - from) / 2;
        let a = sort(s, from, mid);
        let b = sort(s, mid, to);
        let t = merge(&a, &b);
        proof {
            broadcast use vstd::seq_lib::group_to_multiset_ensures;

            let x = s@.subrange(from as int, mid as int);
            let y = s@.subrange(mid as int, to as int);
            assert(x + y =~= all);
            vstd::seq_lib::lemma_multiset_commutative(x, y);
            vstd::seq_lib::lemma_multiset_commutative(a@, b@);
            assert(t@.to_multiset() =~= all.to_multiset());
            assert(t@.len() == all.len()) by {
                assert(t@.to_multiset().len() == t@.len());
                assert(all.to_multiset().len() == all.len());
            }
        }
        t
    }
}

/// The median of the samples of a window, if there are any; the next window begins empty.
pub fn emit_window_latency(samples: &mut Vec<u128>) -> (m: Option<u128>)
    requires
        median_fits(old(samples)@),
    ensures
        final(samples)@ == Seq::<u128>::empty(),
        m == (if old(samples)@.len() == 0 {
            None
        } else {
            Some(median_of(old(samples)@))
        }),
{
    if samples.len() == 0 {
        assert(samples@ =~= Seq::empty());
        return None;
    }
    let n: usize = samples.len();
    let t = sort(&*samples, 0, n);
    proof {
        assert(samples@.subrange(0, n as int) =~= samples@);
        assert(is_sorted_form(t@, samples@));
        let o = in_order(samples@);
        assert(is_sorted_form(o, samples@));
        lemma_order_unique(t@, o);
    }
    let mid: usize = n / 2;
    let median: u128 = if n % 2 == 0 {
        (t[mid - 1] + t[mid]) / 2
    } else {
        t[mid]
    };
    samples.clear();
    Some(median)
}

/// The median lies between the smallest and the largest sample.
pub proof fn law_median_is_between(s: Seq<u128>, lo: u128, hi: u128)
    requires
        s.len() > 0,
        forall|i: int| 0 <= i < s.len() ==> lo <= #[trigger] s[i] <= hi,
    ensures
        lo <= median_of(s) <= hi,
{
    broadcast use vstd::seq_lib::group_to_multiset_ensures;

    let w = s.sort_by(leq());
    s.lemma_sort_by_ensures(leq());
    assert forall|i: int, j: int| 0 <= i < j < w.len() implies w[i] <= w[j] by {
        assert(leq()(w[i], w[j]));
    }
    assert(is_sorted_form(w, s));
    let t = in_order(s);
    assert(is_sorted_form(t, s));
    assert(t.len() == s.len()) by {
        assert(t.to_multiset().len() == t.len());
        assert(s.to_multiset().len() == s.len());
    }
    assert forall|i: int| 0 <= i < t.len() implies lo <= #[trigger] t[i] <= hi by {
        assert(t.contains(t[i]));
        assert(t.to_multiset().count(t[i]) > 0);
        assert(s.contains(t[i]));
    }
}

/// However the samples are put in order, the median is the one in the middle, or the mean of the
/// two in the middle, rounded down.
pub proof fn law_median_is_in_the_middle(s: Seq<u128>, t: Seq<u128>)
    requires
        s.len() > 0,
        t.to_multiset() == s.to_multiset(),
        forall|i: int, j: int| 0 <= i < j < t.len() ==> t[i] <= t[j],
    ensures
        t.len() == s.len(),
        s.len() % 2 == 1 ==> median_of(s) == t[(s.len() - 1) / 2],
        s.len() % 2 == 0 ==> {
            let a = t[s.len() / 2 - 1];
            let b = t[s.len() as int / 2];
            2 * median_of(s) <= a + b <= 2 * median_of(s) + 1
        },
{
    broadcast use vstd::seq_lib::group_to_multiset_ensures;

    assert(is_sorted_form(t, s));
    let o = in_order(s);
    assert(is_sorted_form(o, s));
    lemma_order_unique(t, o);
    assert(t.to_multiset().len() == t.len());
    assert(s.to_multiset().len() == s.len());
}

/// The times at which transactions were sent and confirmed, in nanoseconds.
pub type Latencies = DigestMap<(u128, u128)>;

/// A time span in whole milliseconds.
pub open spec fn millis(span: (u128, u128)) -> nat {
    ((span.1 - span.0) / 1_000_000) as nat
}

/// The time spans of all transactions together, each in whole milliseconds.
pub open spec fn total_millis(m: Map<Digest, (u128, u128)>) -> nat
    decreases m.dom().len(),
{
    if m.dom().finite() && m.dom().len() > 0 {
        let k = m.dom().choose();
        millis(m[k]) + total_millis(m.remove(k))
    } else {
        0
    }
}

/// Taking one out takes its span off the total.
proof fn lemma_total_millis_remove(m: Map<Digest, (u128, u128)>, k: Digest)
    requires
        m.dom().finite(),
        m.contains_key(k),
    ensures
        total_millis(m) == millis(m[k]) + total_millis(m.remove(k)),
    decreases m.dom().len(),
{
    let c = m.dom().choose();
    assert(m.dom().contains(k));
    assert(m.dom().len() > 0) by {
        if m.dom().len() == 0 {
            assert(m.dom() =~= Set::empty());
        }
    }
    if c != k {
        lemma_total_millis_remove(m.remove(c), k);
        lemma_total_millis_remove(m.remove(k), c);
        assert(m.remove(c).remove(k) =~= m.remove(k).remove(c));
    }
}

/// How many transactions were confirmed, and how many milliseconds they took together. The mean
/// latency is the second by the first.
pub fn statistics(latencies: &Latencies) -> (r: (u64, u128))
    requires
        latencies@.dom().finite(),
        latencies@.dom().len() <= u64::MAX,
        forall|h: Digest| #[trigger]
            latencies@.contains_key(h) ==> latencies@[h].0 <= latencies@[h].1,
        total_millis(latencies@) <= u128::MAX,
    ensures
        r.0 == latencies@.dom().len(),
        r.1 == total_millis(latencies@),
{
    let keys = latencies.keys();
    let ghost all = latencies@;
    let ghost mut rest = all;
    let mut idx: u64 = 0;
    let mut total_time: u128 = 0;
    let mut i: usize = 0;
    proof {
        assert(keys@.skip(0) =~= keys@);
    }
    while i < keys.len()
        invariant
            i <= keys@.len(),
            all == latencies@,
            all.dom().finite(),
            keys@.no_duplicates(),
            keys@.to_set() == all.dom(),
            rest.dom() == keys@.skip(i as int).to_set(),
            rest.dom().finite(),
            forall|h: Digest| #[trigger]
                rest.contains_key(h) ==> all.contains_key(h) && rest[h] == all[h],
            forall|h: Digest| #[trigger] all.contains_key(h) ==> all[h].0 <= all[h].1,
            total_time + total_millis(rest) == total_millis(all),
            idx + rest.dom().len() == all.dom().len(),
            all.dom().len() <= u64::MAX,
            total_millis(all) <= u128::MAX,
        decreases keys@.len() - i,
    {
        let k: Digest = keys[i];
        proof {
            assert(keys@.skip(i as int)[0] == k);
            assert(keys@.skip(i as int).to_set().contains(k));
            assert(rest.contains_key(k));
            lemma_total_millis_remove(rest, k);
            let next = keys@.skip(i + 1);
            assert(rest.remove(k).dom() =~= next.to_set()) by {
                assert forall|h: Digest| next.contains(h) <==> keys@.skip(i as int).contains(h) && h
                    != k by {
                    if next.contains(h) {
                        let n = choose|n: int| 0 <= n < next.len() && next[n] == h;
                        assert(keys@.skip(i as int)[n + 1] == h);
                        assert(keys@[i + 1 + n] != keys@[i as int]);
                    }
                    if keys@.skip(i as int).contains(h) && h != k {
                        let n = choose|n: int|
                            0 <= n < keys@.skip(i as int).len() && keys@.skip(i as int)[n] == h;
                        assert(next[n - 1] == h);
                    }
                }
            }
            rest = rest.remove(k);
        }
        if let Some(span) = latencies.get(k) {
            let time: u128 = (span.1 - span.0) / 1_000_000;
            idx = idx + 1;
            total_time = total_time + time;
        }
        i = i + 1;
    }
    proof {
        assert(keys@.skip(i as int) =~= Seq::empty());
        assert(rest.dom() =~= Set::empty());
    }
    (idx, total_time)
}

/// A time span counts in whole milliseconds, of a million nanoseconds each. One more transaction
/// adds its own to the total, and no transactions took no time.
pub proof fn law_total_adds_up(m: Map<Digest, (u128, u128)>, k: Digest, span: (u128, u128))
    requires
        m.dom().finite(),
        !m.contains_key(k),
        span.0 <= span.1,
    ensures
        millis(span) * 1_000_000 <= span.1 - span.0 < (millis(span) + 1) * 1_000_000,
        total_millis(m.insert(k, span)) == total_millis(m) + millis(span),
        total_millis(Map::empty()) == 0,
{
    lemma_total_millis_remove(m.insert(k, span), k);
    assert(m.insert(k, span).remove(k) =~= m);
}

} // verus!
