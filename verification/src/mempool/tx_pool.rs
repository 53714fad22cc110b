//! The nonce-keyed transaction pool.
//!
//! A transaction is unknown, mineable (waiting to be batched), or in flight (proposed at some
//! round). Of what was committed, only the highest nonce of each client is remembered: any
//! nonce at or below it is a replay.

use crate::fnv_map::FnvMap;
use crate::mempool::batch::CachedBatch;
use crate::mempool::tx::{key_le, key_of, ClientId, MempoolTx, Nonce, TxKey};
use crate::split_map::SplitMap;
use std::collections::BTreeMap;
use std::sync::Arc;
use vstd::prelude::*;
use vstd::std_specs::cmp::OrdSpec;

verus! {

broadcast use {vstd::laws_cmp::group_laws_cmp, vstd::std_specs::btree::group_btree_axioms};

/// A transaction that was proposed and is neither committed nor rolled back.
pub struct InflightEntry<Tx> {
    pub tx: Arc<Tx>,
    pub size: usize,
    pub round: u64,
}

/// What a pool holds.
#[verifier::ext_equal]
pub struct PoolState<Tx> {
    /// Transactions that can be batched, each with its size in bytes.
    pub mineable: Map<TxKey, (Arc<Tx>, usize)>,
    /// Transactions that were proposed.
    pub inflight: Map<TxKey, InflightEntry<Tx>>,
    /// The keys in flight, by the round they were proposed at.
    pub by_round: Map<u64, Set<TxKey>>,
    /// The highest committed nonce of each client that has committed anything.
    pub high: Map<ClientId, Nonce>,
    /// How many bytes fill a batch.
    pub batch_size: usize,
    /// Whether the batch timer is due to be restarted.
    pub timer_reset: bool,
}

/// The sizes of all entries together.
pub open spec fn total_size<Tx>(m: Map<TxKey, (Arc<Tx>, usize)>) -> nat
    decreases m.dom().len(),
{
    if m.dom().finite() && m.dom().len() > 0 {
        let k = m.dom().choose();
        m[k].1 as nat + total_size(m.remove(k))
    } else {
        0
    }
}

/// Whether `k` is the first key of `s`, by client and then by nonce.
pub open spec fn is_least(s: Set<TxKey>, k: TxKey) -> bool {
    s.contains(k) && forall|j: TxKey| #[trigger] s.contains(j) ==> key_le(k, j)
}

/// The first key of `s`.
pub open spec fn least(s: Set<TxKey>) -> TxKey {
    choose|k: TxKey| is_least(s, k)
}

/// The keys of the transactions of a batch.
pub open spec fn batch_keys<Tx: MempoolTx>(txs: Seq<Arc<Tx>>) -> Set<TxKey> {
    Set::new(|k: TxKey| exists|i: int| 0 <= i < txs.len() && #[trigger] key_of(&*txs[i]) == k)
}

/// The clients that have a transaction in a batch.
pub open spec fn batch_clients<Tx: MempoolTx>(txs: Seq<Arc<Tx>>) -> Set<ClientId> {
    Set::new(
        |c: ClientId| exists|i: int| 0 <= i < txs.len() && #[trigger] key_of(&*txs[i]).0 == c,
    )
}

/// The watermark of a client: zero until it has committed something.
pub open spec fn watermark(high: Map<ClientId, Nonce>, c: ClientId) -> Nonce {
    if high.contains_key(c) {
        high[c]
    } else {
        0
    }
}

/// The watermarks after a batch commits: each of its clients has at least the nonces it has
/// in the batch.
pub open spec fn high_after<Tx: MempoolTx>(
    high: Map<ClientId, Nonce>,
    txs: Seq<Arc<Tx>>,
) -> Map<ClientId, Nonce>
    decreases txs.len(),
{
    if txs.len() == 0 {
        high
    } else {
        raised(high_after(high, txs.drop_last()), key_of(&*txs.last()))
    }
}

/// The watermarks after one transaction with this key committed.
pub open spec fn raised(high: Map<ClientId, Nonce>, k: TxKey) -> Map<ClientId, Nonce> {
    let cur = watermark(high, k.0);
    high.insert(
        k.0,
        if k.1 > cur {
            k.1
        } else {
            cur
        },
    )
}

/// The keys that a committed batch leaves stale, when the watermarks are `high` by then: those
/// of its clients that are not above the client's watermark.
pub open spec fn stale<Tx: MempoolTx>(
    high: Map<ClientId, Nonce>,
    txs: Seq<Arc<Tx>>,
) -> Set<TxKey> {
    Set::new(|k: TxKey| batch_clients(txs).contains(k.0) && k.1 <= watermark(high, k.0))
}

/// The sizes of these entries together.
pub open spec fn sum_sizes<Tx>(m: Map<TxKey, (Arc<Tx>, usize)>, keys: Seq<TxKey>) -> nat
    decreases keys.len(),
{
    if keys.len() == 0 {
        0
    } else {
        sum_sizes(m, keys.drop_last()) + m[keys.last()].1 as nat
    }
}

/// The index with these keys taken out of every round.
pub open spec fn without_keys(
    by_round: Map<u64, Set<TxKey>>,
    keys: Set<TxKey>,
) -> Map<u64, Set<TxKey>> {
    Map::new(|r: u64| by_round.contains_key(r), |r: u64| by_round[r].difference(keys))
}

/// The keys that the next batch takes when `used` bytes of it are taken already: the first
/// ones, until the batch is full, the next one does not fit any more, or nothing is left.
pub open spec fn next_keys<Tx>(
    mineable: Map<TxKey, (Arc<Tx>, usize)>,
    batch_size: usize,
    used: nat,
) -> Seq<TxKey>
    decreases mineable.dom().len(),
{
    let k = least(mineable.dom());
    if used < batch_size && mineable.dom().finite() && mineable.contains_key(k) && used
        + mineable[k].1 <= batch_size {
        seq![k] + next_keys(mineable.remove(k), batch_size, used + mineable[k].1 as nat)
    } else {
        Seq::empty()
    }
}

/// The entries that are no larger than a whole batch. The others can never be batched: they wait,
/// and hold nothing up.
pub open spec fn batchable<Tx>(
    mineable: Map<TxKey, (Arc<Tx>, usize)>,
    batch_size: usize,
) -> Map<TxKey, (Arc<Tx>, usize)> {
    Map::new(
        |k: TxKey| mineable.contains_key(k) && mineable[k].1 <= batch_size,
        |k: TxKey| mineable[k],
    )
}

impl<Tx: MempoolTx> PoolState<Tx> {
    /// The keys that the next batch takes, in order.
    pub open spec fn next_batch(self) -> Seq<TxKey> {
        next_keys(batchable(self.mineable, self.batch_size), self.batch_size, 0)
    }

    /// The highest committed nonce of a client, or zero.
    pub open spec fn hi(self, c: ClientId) -> Nonce {
        watermark(self.high, c)
    }

    /// The bytes that wait to be batched.
    pub open spec fn bytes(self) -> nat {
        total_size(self.mineable)
    }

    /// What holds of every pool: nothing is both mineable and in flight, nothing mineable is a
    /// replay, every entry is filed under its own key, and the index by round lists exactly
    /// what is in flight.
    pub open spec fn inv(self) -> bool {
        &&& self.mineable.dom().finite()
        &&& forall|k: TxKey| #[trigger]
            self.mineable.contains_key(k) ==> !self.inflight.contains_key(k) && k.1 > self.hi(k.0)
                && key_of(&*self.mineable[k].0) == k
        &&& self.index_inv()
    }

    /// Every entry in flight is filed under its own key, and the index by round lists exactly
    /// those entries.
    pub open spec fn index_inv(self) -> bool {
        &&& self.inflight.dom().finite()
        &&& forall|k: TxKey| #[trigger]
            self.inflight.contains_key(k) ==> key_of(&*self.inflight[k].tx) == k
                && self.by_round.contains_key(self.inflight[k].round)
                && self.by_round[self.inflight[k].round].contains(k)
        &&& forall|r: u64, k: TxKey|
            self.by_round.contains_key(r) && #[trigger] self.by_round[r].contains(k)
                ==> self.inflight.contains_key(k) && self.inflight[k].round == r
    }

    /// The pool with these keys taken out of flight.
    spec fn landed(self, keys: Set<TxKey>) -> Self {
        PoolState {
            inflight: self.inflight.remove_keys(keys),
            by_round: without_keys(self.by_round, keys),
            ..self
        }
    }

    /// The pool with the transactions of a batch taken out and the watermarks raised, before
    /// the sweep.
    spec fn settled(self, txs: Seq<Arc<Tx>>) -> Self {
        let keys = batch_keys(txs);
        PoolState {
            mineable: self.mineable.remove_keys(keys),
            inflight: self.inflight.remove_keys(keys),
            by_round: without_keys(self.by_round, keys),
            high: high_after(self.high, txs),
            ..self
        }
    }

    /// Whether a transaction with this key is dropped on arrival: it is a replay, or it is in
    /// flight already.
    pub open spec fn refuses(self, k: TxKey) -> bool {
        k.1 <= self.hi(k.0) || self.inflight.contains_key(k)
    }

    /// The pool after a client submitted `tx`; a later submission under the same key wins.
    pub open spec fn add(self, tx: Arc<Tx>, size: usize) -> Self {
        let k = key_of(&*tx);
        if self.refuses(k) {
            self
        } else {
            PoolState { mineable: self.mineable.insert(k, (tx, size)), ..self }
        }
    }

    /// The pool with a place in the index for `round`.
    pub open spec fn open_round(self, round: u64) -> Self {
        if self.by_round.contains_key(round) {
            self
        } else {
            PoolState { by_round: self.by_round.insert(round, Set::empty()), ..self }
        }
    }

    /// The pool after `k` went in flight at `round`, which has its place in the index.
    pub open spec fn launch(self, k: TxKey, tx: Arc<Tx>, size: usize, round: u64) -> Self {
        PoolState {
            mineable: self.mineable.remove(k),
            inflight: self.inflight.insert(k, InflightEntry { tx, size, round }),
            by_round: self.by_round.insert(round, self.by_round[round].insert(k)),
            ..self
        }
    }

    /// The pool after one transaction of a proposal was seen. A transaction that was mineable
    /// keeps the size it came with.
    pub open spec fn admit_one(self, tx: Arc<Tx>, wire_size: usize, round: u64) -> Self {
        let k = key_of(&*tx);
        if self.refuses(k) {
            self
        } else {
            let size = if self.mineable.contains_key(k) {
                self.mineable[k].1
            } else {
                wire_size
            };
            self.launch(k, tx, size, round)
        }
    }

    /// The pool after a proposal with these transactions was admitted at `round`.
    pub open spec fn admitted(self, txs: Seq<Arc<Tx>>, wire_sizes: Seq<usize>, round: u64) -> Self
        decreases txs.len(),
    {
        if txs.len() == 0 {
            self.open_round(round)
        } else {
            self.admitted(txs.drop_last(), wire_sizes, round).admit_one(
                txs.last(),
                wire_sizes[txs.len() - 1],
                round,
            )
        }
    }

    /// The pool after these mineable keys went in flight at `round`.
    pub open spec fn launch_keys(self, keys: Seq<TxKey>, round: u64) -> Self
        decreases keys.len(),
    {
        if keys.len() == 0 {
            self
        } else {
            let s = self.launch_keys(keys.drop_last(), round);
            let k = keys.last();
            s.launch(k, self.mineable[k].0, self.mineable[k].1, round)
        }
    }

    /// The transactions of the next batch, in order.
    pub open spec fn next_payload(self) -> Seq<Arc<Tx>> {
        let keys = self.next_batch();
        Seq::new(keys.len(), |i: int| self.mineable[keys[i]].0)
    }

    /// The pool after a batch was made at `round`.
    pub open spec fn made(self, round: u64) -> Self {
        PoolState {
            timer_reset: true,
            ..self.open_round(round).launch_keys(self.next_batch(), round)
        }
    }

    /// The pool after a batch with these transactions committed at `round`: the watermarks rise,
    /// and nothing that is stale by then is mineable or in flight.
    pub open spec fn committed(self, txs: Seq<Arc<Tx>>, round: u64) -> Self {
        let high = high_after(self.high, txs);
        let gone = stale(high, txs);
        let by_round = without_keys(self.by_round, gone);
        PoolState {
            mineable: self.mineable.remove_keys(gone),
            inflight: self.inflight.remove_keys(gone),
            by_round: if by_round.contains_key(round) && by_round[round] == Set::<
                TxKey,
            >::empty() {
                by_round.remove(round)
            } else {
                by_round
            },
            high,
            ..self
        }
    }

    /// The pool after these keys, all in flight, were taken out of flight; those that are no
    /// replay are mineable again.
    spec fn reclaimed(self, keys: Set<TxKey>) -> Self {
        PoolState {
            mineable: Map::new(
                |k: TxKey|
                    self.mineable.contains_key(k) || (keys.contains(k) && k.1 > self.hi(k.0)),
                |k: TxKey|
                    if keys.contains(k) && k.1 > self.hi(k.0) {
                        (self.inflight[k].tx, self.inflight[k].size)
                    } else {
                        self.mineable[k]
                    },
            ),
            inflight: self.inflight.remove_keys(keys),
            ..self
        }
    }

    /// Whether `k` is in flight at one of `rounds`.
    pub open spec fn orphaned(self, rounds: Seq<u64>, k: TxKey) -> bool {
        self.inflight.contains_key(k) && rounds.contains(self.inflight[k].round)
    }

    /// The pool after the chain switched away from `rounds`: what was in flight there is
    /// mineable again, unless it became a replay.
    pub open spec fn rolled_back(self, rounds: Seq<u64>) -> Self {
        PoolState {
            mineable: Map::new(
                |k: TxKey|
                    self.mineable.contains_key(k) || (self.orphaned(rounds, k) && k.1 > self.hi(
                        k.0,
                    )),
                |k: TxKey|
                    if self.orphaned(rounds, k) && k.1 > self.hi(k.0) {
                        (self.inflight[k].tx, self.inflight[k].size)
                    } else {
                        self.mineable[k]
                    },
            ),
            inflight: Map::new(
                |k: TxKey| self.inflight.contains_key(k) && !self.orphaned(rounds, k),
                |k: TxKey| self.inflight[k],
            ),
            by_round: Map::new(
                |r: u64| self.by_round.contains_key(r) && !rounds.contains(r),
                |r: u64| self.by_round[r],
            ),
            ..self
        }
    }
}

/// Taking one entry out takes its size off the total.
pub proof fn lemma_total_remove<Tx>(m: Map<TxKey, (Arc<Tx>, usize)>, k: TxKey)
    requires
        m.dom().finite(),
        m.contains_key(k),
    ensures
        total_size(m) == m[k].1 as nat + total_size(m.remove(k)),
    decreases m.dom().len(),
{
    let c = m.dom().choose();
    assert(m.dom().contains(k));
    assert(m.dom().len() > 0) by {
        if m.dom().len() == 0 {
            assert(m.dom() =~= Set::empty());
        }
    }
    if c != k {
        lemma_total_remove(m.remove(c), k);
        lemma_total_remove(m.remove(k), c);
        assert(m.remove(c).remove(k) =~= m.remove(k).remove(c));
    }
}

/// Putting one entry in puts its size on the total, in place of the one it overwrites.
pub proof fn lemma_total_insert<Tx>(
    m: Map<TxKey, (Arc<Tx>, usize)>,
    k: TxKey,
    v: (Arc<Tx>, usize),
)
    requires
        m.dom().finite(),
    ensures
        total_size(m.insert(k, v)) == total_size(m.remove(k)) + v.1 as nat,
{
    lemma_total_remove(m.insert(k, v), k);
    assert(m.insert(k, v).remove(k) =~= m.remove(k));
}

/// A part weighs no more than the whole.
pub proof fn lemma_total_submap<Tx>(
    a: Map<TxKey, (Arc<Tx>, usize)>,
    b: Map<TxKey, (Arc<Tx>, usize)>,
)
    requires
        b.dom().finite(),
        forall|k: TxKey| #[trigger] a.contains_key(k) ==> b.contains_key(k) && b[k] == a[k],
    ensures
        total_size(a) <= total_size(b),
        a.dom().finite(),
    decreases a.dom().len(),
{
    assert(a.dom().subset_of(b.dom()));
    vstd::set_lib::lemma_set_subset_finite(b.dom(), a.dom());
    if a.dom().len() > 0 {
        let k = a.dom().choose();
        assert(a.contains_key(k));
        lemma_total_submap(a.remove(k), b.remove(k));
        lemma_total_remove(a, k);
        lemma_total_remove(b, k);
    }
}

/// The pool of transactions that wait to be batched or to be committed.
pub struct Txpool<Tx> {
    mineable: BTreeMap<TxKey, (Arc<Tx>, usize)>,
    mineable_bytes: usize,
    inflight: SplitMap<TxKey, InflightEntry<Tx>>,
    inflight_by_round: FnvMap<u64, SplitMap<TxKey, ()>>,
    high_committed_nonce: FnvMap<ClientId, Nonce>,
    batch_size: usize,
    timer_reset: bool,
}

/// Whether `k` is among the first `n` keys of a listing.
spec fn listed<V>(s: Seq<(&TxKey, &V)>, n: int, k: TxKey) -> bool {
    exists|i: int| 0 <= i < n && *(#[trigger] s[i]).0 == k
}

/// The sets of keys that a table of tables stands for.
spec fn rounds_view(m: Map<u64, SplitMap<TxKey, ()>>) -> Map<u64, Set<TxKey>> {
    Map::new(|r: u64| m.contains_key(r), |r: u64| m[r]@.dom())
}

impl<Tx: MempoolTx> View for Txpool<Tx> {
    type V = PoolState<Tx>;

    closed spec fn view(&self) -> PoolState<Tx> {
        PoolState {
            mineable: self.mineable@,
            inflight: self.inflight@,
            by_round: rounds_view(self.inflight_by_round@),
            high: self.high_committed_nonce@,
            batch_size: self.batch_size,
            timer_reset: self.timer_reset,
        }
    }
}

impl<Tx: MempoolTx> Txpool<Tx> {
    /// The pool keeps its invariant, and its count of mineable bytes is right.
    pub closed spec fn wf(&self) -> bool {
        self@.inv() && self.mineable_bytes == self@.bytes()
    }

    /// An empty pool, with a full batch at `batch_size` bytes.
    pub fn new(batch_size: usize) -> (p: Self)
        ensures
            p.wf(),
            p@ == (PoolState::<Tx> {
                mineable: Map::empty(),
                inflight: Map::empty(),
                by_round: Map::empty(),
                high: Map::empty(),
                batch_size,
                timer_reset: false,
            }),
    {
        let p = Txpool {
            mineable: BTreeMap::new(),
            mineable_bytes: 0,
            inflight: SplitMap::new(),
            inflight_by_round: FnvMap::new(),
            high_committed_nonce: FnvMap::new(),
            batch_size,
            timer_reset: false,
        };
        assert(p@.by_round =~= Map::empty());
        p
    }

    /// The highest committed nonce of a client, or zero.
    pub fn high_committed(&self, c: ClientId) -> (n: Nonce)
        ensures
            n == self@.hi(c),
    {
        match self.high_committed_nonce.get(c) {
            Some(n) => *n,
            None => 0,
        }
    }

    /// Whether a transaction with this key is dropped on arrival.
    fn refuses(&self, k: TxKey) -> (r: bool)
        ensures
            r == self@.refuses(k),
    {
        k.1 <= self.high_committed(k.0) || self.inflight.contains_key(k)
    }

    /// Adds a transaction that a client submitted. It is dropped if its nonce is not above the
    /// client's watermark or if it is in flight already; otherwise it is mineable, in place of
    /// an earlier one under the same key.
    pub fn add_tx(&mut self, tx: Arc<Tx>, size: usize)
        requires
            old(self).wf(),
            old(self)@.add(tx, size).bytes() <= usize::MAX,
        ensures
            final(self).wf(),
            final(self)@ == old(self)@.add(tx, size),
    {
        let k: TxKey = (tx.client_id(), tx.nonce());
        if self.refuses(k) {
            return ;
        }
        proof {
            lemma_total_insert(self.mineable@, k, (tx, size));
            if self.mineable@.contains_key(k) {
                lemma_total_remove(self.mineable@, k);
            } else {
                assert(self.mineable@.remove(k) =~= self.mineable@);
            }
        }
        if let Some((_, old_size)) = self.mineable.insert(k, (tx, size)) {
            self.mineable_bytes = self.mineable_bytes - old_size;
        }
        self.mineable_bytes = self.mineable_bytes + size;
    }

    /// Gives `round` a place in the index.
    fn open_round(&mut self, round: u64)
        ensures
            final(self)@ == old(self)@.open_round(round),
            final(self).mineable_bytes == old(self).mineable_bytes,
    {
        if !self.inflight_by_round.contains_key(round) {
            let fresh: SplitMap<TxKey, ()> = SplitMap::new();
            self.inflight_by_round.insert(round, fresh);
            assert(self@.by_round =~= old(self)@.by_round.insert(round, Set::empty()));
        }
    }

    /// Files `k`, which is not mineable, as in flight at `round`.
    fn launch(&mut self, k: TxKey, tx: Arc<Tx>, size: usize, round: u64)
        requires
            old(self)@.by_round.contains_key(round),
            !old(self)@.mineable.contains_key(k),
        ensures
            final(self)@ == old(self)@.launch(k, tx, size, round),
            final(self).mineable_bytes == old(self).mineable_bytes,
    {
        self.inflight.insert(k, InflightEntry { tx, size, round });
        let mut set = match self.inflight_by_round.remove(round) {
            Some(set) => set,
            None => SplitMap::new(),
        };
        let ghost before = set@;
        set.insert(k, ());
        self.inflight_by_round.insert(round, set);
        proof {
            assert(set@.dom() =~= before.dom().insert(k));
            assert(self@.mineable =~= old(self)@.mineable.remove(k));
            assert(self@.by_round =~= old(self)@.by_round.insert(
                round,
                old(self)@.by_round[round].insert(k),
            ));
        }
    }

    /// Takes `k` out of what is mineable and hands back what was filed under it.
    fn take_mineable(&mut self, k: TxKey) -> (r: Option<(Arc<Tx>, usize)>)
        requires
            old(self).mineable_bytes == old(self)@.bytes(),
            old(self)@.mineable.dom().finite(),
        ensures
            final(self)@ == (PoolState { mineable: old(self)@.mineable.remove(k), ..old(self)@ }),
            final(self).mineable_bytes == final(self)@.bytes(),
            r == (if old(self)@.mineable.contains_key(k) {
                Some(old(self)@.mineable[k])
            } else {
                None
            }),
    {
        match self.mineable.remove(&k) {
            Some((tx, size)) => {
                proof {
                    lemma_total_remove(old(self)@.mineable, k);
                }
                self.mineable_bytes = self.mineable_bytes - size;
                Some((tx, size))
            },
            None => {
                assert(old(self)@.mineable.remove(k) =~= old(self)@.mineable);
                None
            },
        }
    }

    /// Marks every transaction of a proposal as in flight at `round`, unless it is a replay or
    /// in flight already. `wire_sizes` gives the serialized size of each transaction, which
    /// counts for those that no client has submitted here.
    pub fn admit_proposal(&mut self, batch: &CachedBatch<Tx>, wire_sizes: &Vec<usize>, round: u64)
        requires
            old(self).wf(),
            wire_sizes@.len() == batch.payload@.len(),
        ensures
            final(self).wf(),
            final(self)@ == old(self)@.admitted(batch.payload@, wire_sizes@, round),
    {
        self.open_round(round);
        let ghost s0 = old(self)@;
        let ghost txs = batch.payload@;
        let mut i: usize = 0;
        proof {
            assert(txs.take(0) =~= Seq::empty());
            lemma_open_round_inv(s0, round);
        }
        while i < batch.payload.len()
            invariant
                i <= txs.len(),
                txs == batch.payload@,
                wire_sizes@.len() == txs.len(),
                self.wf(),
                self@.by_round.contains_key(round),
                self@ == s0.admitted(txs.take(i as int), wire_sizes@, round),
            decreases txs.len() - i,
        {
            let tx = Arc::clone(&batch.payload[i]);
            let k: TxKey = (tx.client_id(), tx.nonce());
            proof {
                assert(txs.take(i + 1).drop_last() =~= txs.take(i as int));
                assert(txs.take(i + 1).last() == tx);
            }
            let ghost s1 = self@;
            if !self.refuses(k) {
                let size: usize = match self.take_mineable(k) {
                    Some((_, size)) => size,
                    None => wire_sizes[i],
                };
                self.launch(k, tx, size, round);
                proof {
                    lemma_launch_inv(s1, k, tx, size, round);
                    assert(self@ =~= s1.launch(k, tx, size, round));
                }
            }
            i = i + 1;
        }
        assert(txs.take(i as int) =~= txs);
    }

    /// The first mineable key of a transaction that is no larger than a whole batch.
    fn first_batchable(&self) -> (r: Option<TxKey>)
        ensures
            r matches Some(k) ==> is_least(batchable(self@.mineable, self@.batch_size).dom(), k),
            r is None ==> batchable(self@.mineable, self@.batch_size).dom() == Set::<
                TxKey,
            >::empty(),
    {
        let ghost fit = batchable(self@.mineable, self@.batch_size);
        for kv in it: self.mineable.iter()
            invariant
                fit == batchable(self.mineable@, self.batch_size),
                vstd::std_specs::btree::increasing_seq(
                    it.seq().map_values(|kv: (&TxKey, &(Arc<Tx>, usize))| *kv.0),
                ),
                forall|n: int|
                    0 <= n < it.seq().len() ==> self.mineable@.contains_key(
                        *(#[trigger] it.seq()[n]).0,
                    ) && self.mineable@[*it.seq()[n].0] == *it.seq()[n].1,
                forall|n: int|
                    0 <= n < it.index() ==> !fit.contains_key(*(#[trigger] it.seq()[n]).0),
        {
            let ghost at = it.index();
            assert(it.seq()[at] == kv);
            if kv.1.1 <= self.batch_size {
                proof {
                    let ks = it.seq().map_values(|kv: (&TxKey, &(Arc<Tx>, usize))| *kv.0);
                    let k = *kv.0;
                    assert(ks[at] == k);
                    assert forall|j: TxKey| #[trigger] fit.dom().contains(j) implies key_le(k, j) by {
                        assert(it.seq().contains((&j, &self.mineable@[j])));
                        let n = choose|n: int|
                            0 <= n < it.seq().len() && it.seq()[n] == (&j, &self.mineable@[j]);
                        assert(ks[n] == j);
                        assert(n >= at);
                        if n > at {
                            assert(ks[at].cmp_spec(&ks[n]) is Less);
                        }
                    }
                }
                return Some(*kv.0);
            }
        }
        assert(fit.dom() =~= Set::empty());
        None
    }

    /// Takes mineable transactions, the first ones first and up to a full batch of bytes, and
    /// marks them as in flight at `round`. It ends before the first one that does not fit any
    /// more. One that is larger than a whole batch is passed over and stays mineable. The batch
    /// timer is to be restarted.
    pub fn make_batch(&mut self, round: u64) -> (payload: Vec<Arc<Tx>>)
        requires
            old(self).wf(),
        ensures
            final(self).wf(),
            final(self)@ == old(self)@.made(round),
            payload@ == old(self)@.next_payload(),
            sum_sizes(old(self)@.mineable, old(self)@.next_batch()) <= old(self)@.batch_size,
    {
        let mut payload: Vec<Arc<Tx>> = Vec::new();
        let mut batch_bytes: usize = 0;
        let ghost s0 = self@;
        let ghost s1 = s0.open_round(round);
        let ghost all = s0.next_batch();
        let ghost mut done: Seq<TxKey> = Seq::empty();
        self.open_round(round);
        proof {
            lemma_open_round_inv(s0, round);
            assert(all =~= done + all);
        }
        while batch_bytes < self.batch_size
            invariant_except_break
                self.wf(),
                self@.batch_size == s0.batch_size,
                all == done + next_keys(
                    batchable(self@.mineable, s0.batch_size),
                    s0.batch_size,
                    batch_bytes as nat,
                ),
            invariant
                self.wf(),
                self@.batch_size == s0.batch_size,
                s1 == s0.open_round(round),
                s0.inv(),
                self@ == s1.launch_keys(done, round),
                self@.by_round.contains_key(round),
                batch_bytes + self@.bytes() == s0.bytes(),
                s0.bytes() <= usize::MAX,
                payload@ =~= Seq::new(done.len(), |i: int| s0.mineable[done[i]].0),
                forall|k: TxKey| #[trigger]
                    self@.mineable.contains_key(k) ==> s0.mineable.contains_key(k)
                        && s0.mineable[k] == self@.mineable[k],
            ensures
                all == done,
            decreases self@.mineable.dom().len(),
        {
            let ghost fit = batchable(self@.mineable, s0.batch_size);
            assert(fit.dom().finite()) by {
                vstd::set_lib::lemma_set_subset_finite(self@.mineable.dom(), fit.dom());
            }
            let k = match self.first_batchable() {
                Some(k) => k,
                None => {
                    proof {
                        assert(!fit.dom().contains(least(fit.dom())));
                        assert(all =~= done);
                    }
                    break ;
                },
            };
            let ghost s2 = self@;
            proof {
                lemma_least_unique(fit.dom(), k, least(fit.dom()));
                assert(fit.dom().contains(k));
                lemma_total_remove(s2.mineable, k);
            }
            let fits: bool = match self.mineable.get(&k) {
                Some(entry) => entry.1 <= self.batch_size - batch_bytes,
                None => false,
            };
            if !fits {
                assert(all =~= done);
                break ;
            }
            if let Some((tx, size)) = self.take_mineable(k) {
                batch_bytes = batch_bytes + size;
                payload.push(Arc::clone(&tx));
                self.launch(k, tx, size, round);
                proof {
                    lemma_launch_inv(s2, k, tx, size, round);
                    let next = done.push(k);
                    assert(next.drop_last() =~= done);
                    assert(self@ =~= s2.launch(k, tx, size, round));
                    assert(self@ == s1.launch_keys(next, round));
                    assert(batchable(self@.mineable, s0.batch_size) =~= fit.remove(k));
                    assert(all =~= next + next_keys(
                        fit.remove(k),
                        s0.batch_size,
                        batch_bytes as nat,
                    ));
                    done = next;
                }
            }
        }
        self.reset_timer();
        proof {
            assert(self@ =~= s0.made(round));
            law_next_batch(s0);
        }
        payload
    }

    /// Takes `k` out of what is in flight.
    fn land(&mut self, k: TxKey)
        requires
            old(self)@.index_inv(),
        ensures
            final(self)@ == (PoolState {
                inflight: old(self)@.inflight.remove(k),
                by_round: without_keys(old(self)@.by_round, set![k]),
                ..old(self)@
            }),
            final(self).mineable_bytes == old(self).mineable_bytes,
    {
        let ghost s0 = self@;
        if let Some(e) = self.inflight.remove(k) {
            if let Some(set) = self.inflight_by_round.remove(e.round) {
                let mut set = set;
                let ghost before = set@;
                set.remove(k);
                self.inflight_by_round.insert(e.round, set);
                proof {
                    assert(set@.dom() =~= before.dom().remove(k));
                }
            }
            proof {
                assert forall|r: u64| #[trigger] s0.by_round.contains_key(r) implies self@.by_round[r]
                    == s0.by_round[r].difference(set![k]) by {
                    if r != e.round {
                        assert(!s0.by_round[r].contains(k));
                    }
                    assert(self@.by_round[r] =~= s0.by_round[r].difference(set![k]));
                }
            }
        } else {
            proof {
                assert(s0.inflight.remove(k) =~= s0.inflight);
                assert forall|r: u64| #[trigger] s0.by_round.contains_key(r) implies self@.by_round[r]
                    == s0.by_round[r].difference(set![k]) by {
                    assert(!s0.by_round[r].contains(k));
                    assert(self@.by_round[r] =~= s0.by_round[r].difference(set![k]));
                }
            }
        }
        assert(self@.by_round =~= without_keys(s0.by_round, set![k]));
    }

    /// Raises the watermark of `c` to `n` unless it is there already.
    fn raise(&mut self, c: ClientId, n: Nonce)
        ensures
            final(self)@ == (PoolState { high: raised(old(self)@.high, (c, n)), ..old(self)@ }),
            final(self).mineable_bytes == old(self).mineable_bytes,
    {
        let cur: Nonce = self.high_committed(c);
        if n > cur {
            self.high_committed_nonce.insert(c, n);
        } else {
            self.high_committed_nonce.insert(c, cur);
        }
    }

    /// The mineable keys of these clients that are not above the client's watermark.
    fn stale_keys(&self, clients: &FnvMap<ClientId, ()>) -> (keys: Vec<TxKey>)
        ensures
            forall|k: TxKey|
                keys@.contains(k) <==> self@.mineable.contains_key(k) && clients@.contains_key(k.0)
                    && k.1 <= self@.hi(k.0),
    {
        let mut keys: Vec<TxKey> = Vec::new();
        let ghost high = self@.high;
        for kv in it: self.mineable.iter()
            invariant
                high == self@.high,
                forall|i: int|
                    0 <= i < it.seq().len() ==> self.mineable@.contains_key(*(#[trigger] it.seq()[i]).0),
                forall|k: TxKey|
                    keys@.contains(k) <==> clients@.contains_key(k.0) && k.1 <= watermark(high, k.0)
                        && listed(it.seq(), it.index(), k),
        {
            let k: TxKey = *kv.0;
            let ghost before = keys@;
            let ghost n = it.index();
            if clients.contains_key(k.0) && k.1 <= self.high_committed(k.0) {
                keys.push(k);
                assert forall|j: TxKey| keys@.contains(j) <==> before.contains(j) || j == k by {
                    assert(keys@[before.len() as int] == k);
                    if before.contains(j) {
                        let n = choose|n: int| 0 <= n < before.len() && before[n] == j;
                        assert(keys@[n] == j);
                    }
                }
            }
            proof {
                assert(*it.seq()[n].0 == k);
                assert forall|j: TxKey| #[trigger]
                    listed(it.seq(), n + 1, j) <==> j == k || listed(it.seq(), n, j) by {
                    if listed(it.seq(), n, j) {
                        let i = choose|i: int| 0 <= i < n && *(#[trigger] it.seq()[i]).0 == j;
                        assert(*it.seq()[i].0 == j);
                    }
                }
                assert forall|j: TxKey|
                    keys@.contains(j) <==> clients@.contains_key(j.0) && j.1 <= watermark(high, j.0)
                        && listed(it.seq(), n + 1, j) by {
                    assert(before.contains(j) <==> clients@.contains_key(j.0) && j.1 <= watermark(
                        high,
                        j.0,
                    ) && listed(it.seq(), n, j));
                }
            }
        }
        keys
    }

    /// The keys of these clients in flight that are not above the client's watermark.
    fn stale_inflight(&self, clients: &FnvMap<ClientId, ()>) -> (keys: Vec<TxKey>)
        ensures
            forall|k: TxKey|
                keys@.contains(k) <==> self@.inflight.contains_key(k) && clients@.contains_key(k.0)
                    && k.1 <= self@.hi(k.0),
    {
        let all = self.inflight.keys();
        let mut keys: Vec<TxKey> = Vec::new();
        let mut i: usize = 0;
        while i < all.len()
            invariant
                i <= all@.len(),
                forall|k: TxKey|
                    keys@.contains(k) <==> all@.take(i as int).contains(k) && clients@.contains_key(
                        k.0,
                    ) && k.1 <= self@.hi(k.0),
            decreases all@.len() - i,
        {
            let k: TxKey = all[i];
            let ghost before = keys@;
            proof {
                assert(all@.take(i + 1) =~= all@.take(i as int).push(k));
                lemma_push_to_set(all@.take(i as int), k);
                lemma_push_to_set(before, k);
            }
            if clients.contains_key(k.0) && k.1 <= self.high_committed(k.0) {
                keys.push(k);
            }
            proof {
                let some = all@.take(i as int);
                assert forall|j: TxKey|
                    keys@.contains(j) <==> all@.take(i + 1).contains(j) && clients@.contains_key(
                        j.0,
                    ) && j.1 <= self@.hi(j.0) by {
                    assert(some.push(k).to_set().contains(j) <==> some.to_set().contains(j) || j
                        == k);
                    assert(before.push(k).to_set().contains(j) <==> before.to_set().contains(j)
                        || j == k);
                }
            }
            i = i + 1;
        }
        proof {
            assert(all@.take(i as int) =~= all@);
            assert forall|k: TxKey| all@.contains(k) <==> self@.inflight.contains_key(k) by {
                assert(all@.to_set().contains(k) <==> self@.inflight.dom().contains(k));
            }
        }
        keys
    }

    /// Settles a committed batch: raises the watermark of each client to the highest nonce it
    /// has in the batch, and drops whatever of these clients became stale, be it mineable or in
    /// flight. The place of `round` in the index goes once it is empty.
    pub fn commit(&mut self, batch: &CachedBatch<Tx>, round: u64)
        requires
            old(self).wf(),
        ensures
            final(self).wf(),
            final(self)@ == old(self)@.committed(batch.payload@, round),
    {
        let ghost s0 = self@;
        let ghost txs = batch.payload@;
        let mut touched: FnvMap<ClientId, ()> = FnvMap::new();
        let mut i: usize = 0;
        proof {
            assert(txs.take(0) =~= Seq::empty());
            assert(self@.by_round =~~= s0.settled(txs.take(0)).by_round);
            assert(self@ =~= s0.settled(txs.take(0)));
            assert(touched@.dom() =~= batch_clients(txs.take(0)));
        }
        while i < batch.payload.len()
            invariant
                i <= txs.len(),
                txs == batch.payload@,
                s0.inv(),
                self@ == s0.settled(txs.take(i as int)),
                self@.mineable.dom().finite(),
                self.mineable_bytes == self@.bytes(),
                touched@.dom() == batch_clients(txs.take(i as int)),
            decreases txs.len() - i,
        {
            let tx = &batch.payload[i];
            let k: TxKey = (tx.client_id(), tx.nonce());
            let ghost a = txs.take(i as int);
            proof {
                lemma_settled_index(s0, a);
            }
            touched.insert(k.0, ());
            self.land(k);
            let _ = self.take_mineable(k);
            self.raise(k.0, k.1);
            proof {
                let b = txs.take(i + 1);
                assert(b.drop_last() =~= a);
                lemma_settled_keys(b);
                assert(b.last() == txs[i as int]);
                assert(key_of(&*b.last()) == k);
                assert(self@.by_round =~~= s0.settled(b).by_round);
                assert(self@ =~= s0.settled(b));
                assert(touched@.dom() =~= batch_clients(b));
            }
            i = i + 1;
        }
        assert(txs.take(i as int) =~= txs);
        let stale = self.stale_keys(&touched);
        let ghost s1 = self@;
        let mut j: usize = 0;
        assert(s1.mineable.remove_keys(stale@.take(0).to_set()) =~= s1.mineable);
        while j < stale.len()
            invariant
                j <= stale@.len(),
                self@ == (PoolState {
                    mineable: s1.mineable.remove_keys(stale@.take(j as int).to_set()),
                    ..s1
                }),
                self@.mineable.dom().finite(),
                self.mineable_bytes == self@.bytes(),
            decreases stale@.len() - j,
        {
            let _ = self.take_mineable(stale[j]);
            proof {
                let a = stale@.take(j as int);
                let b = stale@.take(j + 1);
                assert(b =~= a.push(stale@[j as int]));
                lemma_push_to_set(a, stale@[j as int]);
                assert(self@.mineable =~= s1.mineable.remove_keys(b.to_set()));
            }
            j = j + 1;
        }
        assert(stale@.take(j as int) =~= stale@);
        let flown = self.stale_inflight(&touched);
        let ghost s3 = self@;
        let mut n: usize = 0;
        proof {
            lemma_settled_index(s0, txs);
            assert(self@ =~~= s3.landed(flown@.take(0).to_set()));
        }
        while n < flown.len()
            invariant
                n <= flown@.len(),
                s3.index_inv(),
                s3.mineable.dom().finite(),
                self@ == s3.landed(flown@.take(n as int).to_set()),
                self.mineable_bytes == self@.bytes(),
            decreases flown@.len() - n,
        {
            let ghost a = flown@.take(n as int).to_set();
            proof {
                lemma_landed_index(s3, a);
            }
            self.land(flown[n]);
            proof {
                let b = flown@.take(n + 1);
                assert(b =~= flown@.take(n as int).push(flown@[n as int]));
                lemma_push_to_set(flown@.take(n as int), flown@[n as int]);
                assert(self@ =~~= s3.landed(b.to_set()));
            }
            n = n + 1;
        }
        assert(flown@.take(n as int) =~= flown@);
        let ghost s2 = self@;
        let empty: bool = match self.inflight_by_round.get(round) {
            Some(set) => {
                let keys = set.keys();
                proof {
                    assert(s2.by_round[round] == set@.dom());
                    if keys@.len() == 0 {
                        assert(set@.dom() =~= Set::empty());
                    } else {
                        assert(keys@.to_set().contains(keys@[0]));
                    }
                }
                keys.len() == 0
            },
            None => false,
        };
        assert(empty == (s2.by_round.contains_key(round) && s2.by_round[round] == Set::<
            TxKey,
        >::empty()));
        if empty {
            self.inflight_by_round.remove(round);
            assert(self@.by_round =~= s2.by_round.remove(round));
        }
        proof {
            lemma_batch_keys_stale(s0, txs);
            assert(self@.mineable =~= s0.committed(txs, round).mineable);
            assert(self@.inflight =~= s0.committed(txs, round).inflight);
            let gone = self::stale(high_after(s0.high, txs), txs);
            assert forall|r: u64| #[trigger] s2.by_round.contains_key(r) implies s2.by_round[r]
                == without_keys(s0.by_round, gone)[r] by {
                assert forall|k: TxKey| s0.by_round[r].contains(k) implies s0.inflight.contains_key(
                    k,
                ) by {}
                assert(s2.by_round[r] =~= without_keys(s0.by_round, gone)[r]);
            }
            assert(s2.by_round =~= without_keys(s0.by_round, gone));
            assert(self@ =~= s0.committed(txs, round));
            lemma_committed_inv(s0, txs, round);
        }
    }

    /// Makes `k`, which is in flight and not mineable, mineable again unless it is a replay.
    fn reclaim(&mut self, k: TxKey)
        requires
            old(self)@.inflight.contains_key(k),
            !old(self)@.mineable.contains_key(k),
            old(self)@.mineable.dom().finite(),
            old(self).mineable_bytes == old(self)@.bytes(),
            k.1 > old(self)@.hi(k.0) ==> old(self)@.bytes() + old(self)@.inflight[k].size
                <= usize::MAX,
        ensures
            final(self)@ == old(self)@.reclaimed(set![k]),
            final(self)@.mineable.dom().finite(),
            final(self).mineable_bytes == final(self)@.bytes(),
    {
        let ghost s0 = self@;
        let hi: Nonce = self.high_committed(k.0);
        if let Some(e) = self.inflight.remove(k) {
            if k.1 > hi {
                proof {
                    lemma_total_insert(s0.mineable, k, (e.tx, e.size));
                    assert(s0.mineable.remove(k) =~= s0.mineable);
                }
                self.mineable.insert(k, (e.tx, e.size));
                self.mineable_bytes = self.mineable_bytes + e.size;
            }
        }
        assert(self@ =~= s0.reclaimed(set![k]));
    }

    /// Makes what was in flight at `rounds` mineable again, for when the chain switched away
    /// from them. What has become a replay is dropped instead.
    pub fn rollback(&mut self, rounds: &[u64])
        requires
            old(self).wf(),
            old(self)@.rolled_back(rounds@).bytes() <= usize::MAX,
        ensures
            final(self).wf(),
            final(self)@ == old(self)@.rolled_back(rounds@),
    {
        let ghost s0 = self@;
        let ghost goal = s0.rolled_back(rounds@);
        let mut i: usize = 0;
        assert(self@ =~= s0.rolled_back(rounds@.take(0)));
        proof {
            lemma_rolled_back_inv(s0, rounds@);
        }
        while i < rounds.len()
            invariant
                i <= rounds@.len(),
                s0.inv(),
                goal == s0.rolled_back(rounds@),
                goal.inv(),
                goal.bytes() <= usize::MAX,
                self@ == s0.rolled_back(rounds@.take(i as int)),
                self.wf(),
            decreases rounds@.len() - i,
        {
            let r: u64 = rounds[i];
            let ghost s1 = self@;
            proof {
                lemma_rolled_back_step(s0, rounds@, i as int);
            }
            if let Some(set) = self.inflight_by_round.remove(r) {
                let keys = set.keys();
                let ghost s2 = self@;
                assert(s2.by_round =~= s1.by_round.remove(r));
                assert(s1.by_round[r] == keys@.to_set());
                let mut j: usize = 0;
                assert(s2.reclaimed(keys@.take(0).to_set()) =~= s2);
                while j < keys.len()
                    invariant
                        j <= keys@.len(),
                        i < rounds@.len(),
                        r == rounds@[i as int],
                        s0.inv(),
                        s1 == s0.rolled_back(rounds@.take(i as int)),
                        s1.inv(),
                        s1.by_round.contains_key(r),
                        s1.by_round[r] == keys@.to_set(),
                        keys@.no_duplicates(),
                        goal == s0.rolled_back(rounds@),
                        goal.inv(),
                        goal.bytes() <= usize::MAX,
                        s2 == (PoolState { by_round: s1.by_round.remove(r), ..s1 }),
                        self@ == s2.reclaimed(keys@.take(j as int).to_set()),
                        self@.mineable.dom().finite(),
                        self.mineable_bytes == self@.bytes(),
                    decreases keys@.len() - j,
                {
                    let k = keys[j];
                    let ghost a = keys@.take(j as int);
                    let ghost b = keys@.take(j + 1);
                    proof {
                        assert(keys@.to_set().contains(k));
                        assert(s1.by_round[r].contains(k));
                        assert(!a.contains(k));
                        assert(b =~= a.push(k));
                        assert(b.to_set() =~= a.to_set().insert(k)) by {
                            assert(b[j as int] == k);
                            assert forall|x: TxKey| a.contains(x) implies b.contains(x) by {
                                let n = choose|n: int| 0 <= n < a.len() && a[n] == x;
                                assert(b[n] == x);
                            }
                        }
                        assert(self@.inflight.contains_key(k));
                        if k.1 > self@.hi(k.0) {
                            let e = s2.inflight[k];
                            let m = self@.mineable.insert(k, (e.tx, e.size));
                            lemma_total_insert(self@.mineable, k, (e.tx, e.size));
                            assert(self@.mineable.remove(k) =~= self@.mineable);
                            assert forall|x: TxKey| #[trigger] m.contains_key(x) implies goal.mineable.contains_key(
                                x,
                            ) && goal.mineable[x] == m[x] by {
                                assert(rounds@.contains(r));
                                if a.contains(x) {
                                    assert(keys@.contains(x)) by {
                                        let n = choose|n: int| 0 <= n < a.len() && a[n] == x;
                                        assert(keys@[n] == x);
                                    }
                                    assert(s1.by_round[r].contains(x));
                                }
                                if x != k && !a.contains(x) {
                                    assert(s1.mineable.contains_key(x));
                                    lemma_take_rounds(s0, rounds@, i as int, x);
                                }
                            }
                            lemma_total_submap(m, goal.mineable);
                        }
                    }
                    self.reclaim(k);
                    proof {
                        assert(s2.reclaimed(a.to_set()).reclaimed(set![k]) =~= s2.reclaimed(
                            b.to_set(),
                        ));
                    }
                    j = j + 1;
                }
                assert(keys@.take(j as int) =~= keys@);
            }
            proof {
                lemma_rolled_back_one(s1, r);
                assert(self@ =~= s1.rolled_back(seq![r]));
                lemma_rolled_back_inv(s1, seq![r]);
            }
            i = i + 1;
        }
        assert(rounds@.take(i as int) =~= rounds@);
    }

    /// How many bytes wait to be batched.
    pub fn mineable_bytes(&self) -> (n: usize)
        requires
            self.wf(),
        ensures
            n == self@.bytes(),
    {
        self.mineable_bytes
    }

    /// How many transactions wait to be batched.
    pub fn mineable_len(&self) -> (n: usize)
        ensures
            n == self@.mineable.dom().len(),
    {
        self.mineable.len()
    }

    /// The transaction that is mineable under a key, with its size.
    pub fn mineable(&self, k: TxKey) -> (r: Option<(Arc<Tx>, usize)>)
        ensures
            r == (if self@.mineable.contains_key(k) {
                Some(self@.mineable[k])
            } else {
                None
            }),
    {
        match self.mineable.get(&k) {
            Some(v) => Some((Arc::clone(&v.0), v.1)),
            None => None,
        }
    }

    /// The round at which a key is in flight, and its size.
    pub fn inflight(&self, k: TxKey) -> (r: Option<(u64, usize)>)
        ensures
            r == (if self@.inflight.contains_key(k) {
                Some((self@.inflight[k].round, self@.inflight[k].size))
            } else {
                None
            }),
    {
        match self.inflight.get(k) {
            Some(e) => Some((e.round, e.size)),
            None => None,
        }
    }

    /// The keys in flight at a round, if the round has a place in the index.
    pub fn inflight_at(&self, round: u64) -> (r: Option<Vec<TxKey>>)
        ensures
            r is Some == self@.by_round.contains_key(round),
            r matches Some(keys) ==> keys@.no_duplicates() && keys@.to_set()
                == self@.by_round[round],
    {
        match self.inflight_by_round.get(round) {
            Some(set) => Some(set.keys()),
            None => None,
        }
    }

    /// Whether no key is both mineable and in flight: so in every pool.
    pub fn key_sets_disjoint(&self) -> (r: bool)
        ensures
            r == self@.mineable.dom().disjoint(self@.inflight.dom()),
            self.wf() ==> r,
    {
        for kv in it: self.mineable.iter()
            invariant
                forall|i: int|
                    0 <= i < it.index() ==> !self.inflight@.contains_key(*(#[trigger] it.seq()[i]).0),
                forall|i: int|
                    0 <= i < it.seq().len() ==> self.mineable@.contains_key(
                        *(#[trigger] it.seq()[i]).0,
                    ),
        {
            if self.inflight.contains_key(*kv.0) {
                assert(self@.mineable.dom().contains(*kv.0));
                return false;
            }
        }
        proof {
            assert forall|k: TxKey| #[trigger]
                self@.mineable.dom().contains(k) implies !self@.inflight.dom().contains(k) by {}
        }
        true
    }

    /// Asks for the batch timer to be restarted.
    pub fn reset_timer(&mut self)
        ensures
            final(self)@ == (PoolState { timer_reset: true, ..old(self)@ }),
            old(self).wf() ==> final(self).wf(),
    {
        self.timer_reset = true;
    }

    /// Whether the batch timer is to be restarted; the request is then taken as met.
    pub fn take_timer_reset(&mut self) -> (due: bool)
        ensures
            due == old(self)@.timer_reset,
            final(self)@ == (PoolState { timer_reset: false, ..old(self)@ }),
            old(self).wf() ==> final(self).wf(),
    {
        let due = self.timer_reset;
        self.timer_reset = false;
        due
    }

    /// Whether enough bytes wait to fill a batch.
    pub fn ready(&self) -> (r: bool)
        requires
            self.wf(),
        ensures
            r == (self@.bytes() >= self@.batch_size),
    {
        self.mineable_bytes >= self.batch_size
    }
}

impl<Tx: MempoolTx> Txpool<Tx> {
    /// What a pool keeps: nothing is both mineable and in flight, nothing mineable is a replay,
    /// the index by round lists exactly what is in flight, and the mineable bytes can be counted.
    pub proof fn lemma_wf(&self)
        requires
            self.wf(),
        ensures
            self@.inv(),
            self@.bytes() <= usize::MAX,
    {
    }
}

/// One more element.
proof fn lemma_push_to_set(s: Seq<TxKey>, x: TxKey)
    ensures
        s.push(x).to_set() == s.to_set().insert(x),
{
    let t = s.push(x);
    assert forall|k: TxKey| t.contains(k) <==> s.contains(k) || k == x by {
        assert(t[s.len() as int] == x);
        if s.contains(k) {
            let n = choose|n: int| 0 <= n < s.len() && s[n] == k;
            assert(t[n] == k);
        }
    }
    assert(t.to_set() =~= s.to_set().insert(x));
}

/// A set has at most one first key.
proof fn lemma_least_unique(s: Set<TxKey>, a: TxKey, b: TxKey)
    requires
        is_least(s, a),
    ensures
        is_least(s, least(s)),
        is_least(s, b) ==> a == b,
{
}

/// A new place in the index keeps the invariant.
proof fn lemma_open_round_inv<Tx: MempoolTx>(s: PoolState<Tx>, round: u64)
    requires
        s.inv(),
    ensures
        s.open_round(round).inv(),
{
}

/// A launch keeps the invariant.
proof fn lemma_launch_inv<Tx: MempoolTx>(
    s: PoolState<Tx>,
    k: TxKey,
    tx: Arc<Tx>,
    size: usize,
    round: u64,
)
    requires
        s.inv(),
        s.by_round.contains_key(round),
        !s.inflight.contains_key(k),
        key_of(&*tx) == k,
    ensures
        s.launch(k, tx, size, round).inv(),
{
    let t = s.launch(k, tx, size, round);
    assert forall|r: u64, j: TxKey|
        t.by_round.contains_key(r) && #[trigger] t.by_round[r].contains(
            j,
        ) implies t.inflight.contains_key(j) && t.inflight[j].round == r by {
        if r == round {
            assert(t.by_round[r] == s.by_round[r].insert(k));
            if j != k {
                assert(s.by_round[r].contains(j));
            }
        } else {
            assert(s.by_round[r].contains(j));
        }
    }
    assert forall|j: TxKey| #[trigger] t.inflight.contains_key(j) implies key_of(
        &*t.inflight[j].tx,
    ) == j && t.by_round.contains_key(t.inflight[j].round)
        && t.by_round[t.inflight[j].round].contains(j) by {
        if j != k {
            assert(s.inflight.contains_key(j));
        }
    }
}

/// The keys and the clients of a batch with one more transaction.
proof fn lemma_settled_keys<Tx: MempoolTx>(txs: Seq<Arc<Tx>>)
    requires
        txs.len() > 0,
    ensures
        batch_keys(txs) == batch_keys(txs.drop_last()).insert(key_of(&*txs.last())),
        batch_clients(txs) == batch_clients(txs.drop_last()).insert(key_of(&*txs.last()).0),
{
    let a = txs.drop_last();
    let n = txs.len() - 1;
    assert forall|k: TxKey| batch_keys(txs).contains(k) <==> batch_keys(a).contains(k) || k
        == key_of(&*txs[n]) by {
        if batch_keys(a).contains(k) {
            let i = choose|i: int| 0 <= i < a.len() && #[trigger] key_of(&*a[i]) == k;
            assert(key_of(&*txs[i]) == k);
        }
        if batch_keys(txs).contains(k) {
            let i = choose|i: int| 0 <= i < txs.len() && #[trigger] key_of(&*txs[i]) == k;
            if i < n {
                assert(key_of(&*a[i]) == k);
            }
        }
    }
    assert(batch_keys(txs) =~= batch_keys(a).insert(key_of(&*txs.last())));
    assert forall|c: ClientId| batch_clients(txs).contains(c) <==> batch_clients(a).contains(c) || c
        == key_of(&*txs[n]).0 by {
        if batch_clients(a).contains(c) {
            let i = choose|i: int| 0 <= i < a.len() && #[trigger] key_of(&*a[i]).0 == c;
            assert(key_of(&*txs[i]).0 == c);
        }
        if batch_clients(txs).contains(c) {
            let i = choose|i: int| 0 <= i < txs.len() && #[trigger] key_of(&*txs[i]).0 == c;
            if i < n {
                assert(key_of(&*a[i]).0 == c);
            }
        }
    }
    assert(batch_clients(txs) =~= batch_clients(a).insert(key_of(&*txs.last()).0));
}

/// The index stays right when keys are taken out of flight.
proof fn lemma_landed_index<Tx: MempoolTx>(s: PoolState<Tx>, keys: Set<TxKey>)
    requires
        s.index_inv(),
    ensures
        s.landed(keys).index_inv(),
{
    let t = s.landed(keys);
    vstd::set_lib::lemma_set_subset_finite(s.inflight.dom(), t.inflight.dom());
    assert forall|r: u64, k: TxKey|
        t.by_round.contains_key(r) && #[trigger] t.by_round[r].contains(
            k,
        ) implies t.inflight.contains_key(k) && t.inflight[k].round == r by {
        assert(s.by_round[r].contains(k));
    }
    assert forall|k: TxKey| #[trigger] t.inflight.contains_key(k) implies key_of(
        &*t.inflight[k].tx,
    ) == k && t.by_round.contains_key(t.inflight[k].round)
        && t.by_round[t.inflight[k].round].contains(k) by {
        assert(s.inflight.contains_key(k));
    }
}

/// The index stays right while a batch is settled.
proof fn lemma_settled_index<Tx: MempoolTx>(s: PoolState<Tx>, txs: Seq<Arc<Tx>>)
    requires
        s.index_inv(),
    ensures
        s.settled(txs).index_inv(),
{
    lemma_landed_index(s, batch_keys(txs));
}

/// Watermarks only rise, rise to at least each nonce of the batch, and change for the batch's
/// clients only.
pub proof fn lemma_high_after<Tx: MempoolTx>(high: Map<ClientId, Nonce>, txs: Seq<Arc<Tx>>)
    ensures
        forall|c: ClientId|
            watermark(high, c) <= #[trigger] watermark(high_after(high, txs), c),
        forall|i: int|
            0 <= i < txs.len() ==> (#[trigger] key_of(&*txs[i])).1 <= watermark(
                high_after(high, txs),
                key_of(&*txs[i]).0,
            ),
        forall|c: ClientId|
            !batch_clients(txs).contains(c) ==> #[trigger] watermark(high_after(high, txs), c)
                == watermark(high, c),
    decreases txs.len(),
{
    if txs.len() > 0 {
        let a = txs.drop_last();
        lemma_high_after(high, a);
        let h = high_after(high, a);
        let k = key_of(&*txs.last());
        let g = high_after(high, txs);
        assert(g == raised(h, k));
        assert(key_of(&*txs[txs.len() - 1]) == k);
        assert forall|c: ClientId| #[trigger] watermark(g, c) >= watermark(h, c) by {}
        assert forall|i: int| 0 <= i < txs.len() implies (#[trigger] key_of(&*txs[i])).1
            <= watermark(g, key_of(&*txs[i]).0) by {
            if i < a.len() {
                assert(key_of(&*a[i]) == key_of(&*txs[i]));
                assert(watermark(g, key_of(&*txs[i]).0) >= watermark(h, key_of(&*txs[i]).0));
            }
        }
        assert forall|c: ClientId| !batch_clients(txs).contains(c) implies #[trigger] watermark(
            g,
            c,
        ) == watermark(high, c) by {
            assert(key_of(&*txs[txs.len() - 1]).0 != c);
            assert(!batch_clients(a).contains(c)) by {
                if batch_clients(a).contains(c) {
                    let i = choose|i: int| 0 <= i < a.len() && #[trigger] key_of(&*a[i]).0 == c;
                    assert(key_of(&*txs[i]).0 == c);
                }
            }
            assert(watermark(h, c) == watermark(high, c));
        }
    }
}

/// A committed key is at or below its client's watermark.
proof fn lemma_batch_keys_stale<Tx: MempoolTx>(s: PoolState<Tx>, txs: Seq<Arc<Tx>>)
    ensures
        forall|k: TxKey| #[trigger]
            batch_keys(txs).contains(k) ==> batch_clients(txs).contains(k.0) && k.1 <= watermark(
                high_after(s.high, txs),
                k.0,
            ),
{
    lemma_high_after(s.high, txs);
    assert forall|k: TxKey| #[trigger] batch_keys(txs).contains(k) implies batch_clients(
        txs,
    ).contains(k.0) && k.1 <= watermark(high_after(s.high, txs), k.0) by {
        let i = choose|i: int| 0 <= i < txs.len() && #[trigger] key_of(&*txs[i]) == k;
        assert(key_of(&*txs[i]).0 == k.0);
    }
}

/// A commit keeps the invariant.
proof fn lemma_committed_inv<Tx: MempoolTx>(s: PoolState<Tx>, txs: Seq<Arc<Tx>>, round: u64)
    requires
        s.inv(),
    ensures
        s.committed(txs, round).inv(),
{
    let t = s.committed(txs, round);
    lemma_high_after(s.high, txs);
    let gone = stale(t.high, txs);
    let u = s.landed(gone);
    lemma_landed_index(s, gone);
    lemma_total_submap(t.mineable, s.mineable);
    assert forall|k: TxKey| #[trigger] t.mineable.contains_key(k) implies !t.inflight.contains_key(k)
        && k.1 > t.hi(k.0) && key_of(&*t.mineable[k].0) == k by {
        assert(s.mineable.contains_key(k));
        if !batch_clients(txs).contains(k.0) {
            assert(watermark(t.high, k.0) == watermark(s.high, k.0));
        }
    }
    assert(t.inflight == u.inflight);
    assert forall|k: TxKey| #[trigger] t.inflight.contains_key(k) implies key_of(
        &*t.inflight[k].tx,
    ) == k && t.by_round.contains_key(t.inflight[k].round)
        && t.by_round[t.inflight[k].round].contains(k) by {
        assert(u.inflight.contains_key(k));
        assert(u.by_round[u.inflight[k].round].contains(k));
    }
    assert forall|r: u64, k: TxKey|
        t.by_round.contains_key(r) && #[trigger] t.by_round[r].contains(
            k,
        ) implies t.inflight.contains_key(k) && t.inflight[k].round == r by {
        assert(u.by_round[r].contains(k));
    }
}

/// Rolling back one round takes what the index lists there out of flight.
proof fn lemma_rolled_back_one<Tx: MempoolTx>(s: PoolState<Tx>, r: u64)
    requires
        s.inv(),
    ensures
        s.by_round.contains_key(r) ==> s.rolled_back(seq![r]) == (PoolState {
            by_round: s.by_round.remove(r),
            ..s
        }).reclaimed(s.by_round[r]),
        !s.by_round.contains_key(r) ==> s.rolled_back(seq![r]) == s,
{
    let one = seq![r];
    assert(one[0] == r);
    assert forall|x: u64| one.contains(x) <==> x == r by {}
    if s.by_round.contains_key(r) {
        assert forall|k: TxKey| s.orphaned(one, k) <==> s.by_round[r].contains(k) by {
            if s.orphaned(one, k) {
                assert(s.inflight.contains_key(k));
            }
        }
        assert(s.rolled_back(one) =~= (PoolState {
            by_round: s.by_round.remove(r),
            ..s
        }).reclaimed(s.by_round[r]));
    } else {
        assert forall|k: TxKey| !s.orphaned(one, k) by {
            if s.orphaned(one, k) {
                assert(s.inflight.contains_key(k));
            }
        }
        assert(s.rolled_back(one) =~= s);
    }
}

/// Rolling back round by round comes to the same as rolling back all of them.
proof fn lemma_rolled_back_step<Tx: MempoolTx>(s: PoolState<Tx>, rounds: Seq<u64>, i: int)
    requires
        s.inv(),
        0 <= i < rounds.len(),
    ensures
        s.rolled_back(rounds.take(i + 1)) == s.rolled_back(rounds.take(i)).rolled_back(
            seq![rounds[i]],
        ),
{
    let a = rounds.take(i);
    let b = rounds.take(i + 1);
    let r = rounds[i];
    let one = seq![r];
    assert(one[0] == r);
    assert forall|x: u64| b.contains(x) <==> a.contains(x) || x == r by {
        assert(b[i] == r);
        if a.contains(x) {
            let n = choose|n: int| 0 <= n < a.len() && a[n] == x;
            assert(b[n] == x);
        }
        if b.contains(x) && x != r {
            let n = choose|n: int| 0 <= n < b.len() && b[n] == x;
            assert(a[n] == x);
        }
    }
    assert forall|x: u64| one.contains(x) <==> x == r by {}
    let t = s.rolled_back(a);
    assert forall|k: TxKey| s.orphaned(b, k) <==> s.orphaned(a, k) || t.orphaned(one, k) by {}
    assert(s.rolled_back(b) =~= t.rolled_back(one));
}

/// What is mineable after the first rounds were rolled back is so, with the same transaction,
/// after all were.
proof fn lemma_take_rounds<Tx: MempoolTx>(s: PoolState<Tx>, rounds: Seq<u64>, i: int, k: TxKey)
    requires
        s.inv(),
        0 <= i <= rounds.len(),
        s.rolled_back(rounds.take(i)).mineable.contains_key(k),
    ensures
        s.rolled_back(rounds).mineable.contains_key(k),
        s.rolled_back(rounds).mineable[k] == s.rolled_back(rounds.take(i)).mineable[k],
{
    let a = rounds.take(i);
    if s.orphaned(a, k) {
        let n = choose|n: int| 0 <= n < a.len() && a[n] == s.inflight[k].round;
        assert(rounds[n] == s.inflight[k].round);
    } else {
        assert(s.mineable.contains_key(k));
    }
}

/// A rollback keeps the invariant.
proof fn lemma_rolled_back_inv<Tx: MempoolTx>(s: PoolState<Tx>, rounds: Seq<u64>)
    requires
        s.inv(),
    ensures
        s.rolled_back(rounds).inv(),
{
    let t = s.rolled_back(rounds);
    assert(t.mineable.dom().finite()) by {
        assert(t.mineable.dom().subset_of(s.mineable.dom().union(s.inflight.dom())));
        vstd::set_lib::lemma_set_subset_finite(
            s.mineable.dom().union(s.inflight.dom()),
            t.mineable.dom(),
        );
    }
    assert(t.inflight.dom().finite()) by {
        vstd::set_lib::lemma_set_subset_finite(s.inflight.dom(), t.inflight.dom());
    }
    assert forall|r: u64, k: TxKey|
        t.by_round.contains_key(r) && #[trigger] t.by_round[r].contains(
            k,
        ) implies t.inflight.contains_key(k) && t.inflight[k].round == r by {
        assert(s.by_round[r].contains(k));
    }
    assert forall|k: TxKey| #[trigger] t.inflight.contains_key(k) implies key_of(
        &*t.inflight[k].tx,
    ) == k && t.by_round.contains_key(t.inflight[k].round)
        && t.by_round[t.inflight[k].round].contains(k) by {
        assert(s.inflight.contains_key(k));
    }
    assert forall|k: TxKey| #[trigger] t.mineable.contains_key(k) implies !t.inflight.contains_key(k)
        && k.1 > t.hi(k.0) && key_of(&*t.mineable[k].0) == k by {
        if s.orphaned(rounds, k) {
            assert(s.inflight.contains_key(k));
        } else {
            assert(s.mineable.contains_key(k));
        }
    }
}

/// Replay protection: once a batch has committed, each of its transactions is refused for good,
/// whether a client submits it or a proposal carries it.
pub proof fn law_committed_is_refused<Tx: MempoolTx>(
    s: PoolState<Tx>,
    txs: Seq<Arc<Tx>>,
    round: u64,
    tx: Arc<Tx>,
    size: usize,
    at: u64,
)
    requires
        batch_keys(txs).contains(key_of(&*tx)),
    ensures
        s.committed(txs, round).refuses(key_of(&*tx)),
        s.committed(txs, round).add(tx, size) == s.committed(txs, round),
        s.committed(txs, round).admit_one(tx, size, at) == s.committed(txs, round),
{
    lemma_batch_keys_stale(s, txs);
}

/// Once a batch has committed, nothing stale of its clients is left: every key of theirs that is
/// mineable or in flight is above the client's watermark, and the index by round lists no other.
pub proof fn law_commit_leaves_nothing_stale<Tx: MempoolTx>(
    s: PoolState<Tx>,
    txs: Seq<Arc<Tx>>,
    round: u64,
    k: TxKey,
    at: u64,
)
    requires
        batch_clients(txs).contains(k.0),
        k.1 <= s.committed(txs, round).hi(k.0),
    ensures
        !s.committed(txs, round).mineable.contains_key(k),
        !s.committed(txs, round).inflight.contains_key(k),
        s.committed(txs, round).by_round.contains_key(at) ==> !s.committed(
            txs,
            round,
        ).by_round[at].contains(k),
{
}

/// A watermark never falls, whatever happens to the pool, and it moves on a commit only.
pub proof fn law_watermark_rises<Tx: MempoolTx>(
    s: PoolState<Tx>,
    txs: Seq<Arc<Tx>>,
    sizes: Seq<usize>,
    rounds: Seq<u64>,
    tx: Arc<Tx>,
    size: usize,
    round: u64,
    c: ClientId,
)
    ensures
        s.hi(c) <= s.committed(txs, round).hi(c),
        s.add(tx, size).hi(c) == s.hi(c),
        s.admitted(txs, sizes, round).hi(c) == s.hi(c),
        s.made(round).hi(c) == s.hi(c),
        s.rolled_back(rounds).hi(c) == s.hi(c),
{
    lemma_high_after(s.high, txs);
    assert(s.committed(txs, round).hi(c) == watermark(high_after(s.high, txs), c));
    lemma_admitted_keeps(s, txs, sizes, round);
    lemma_launch_keys_keeps(
        s.open_round(round),
        s.next_batch(),
        round,
    );
}

/// Admission leaves the watermarks and the batch size alone.
proof fn lemma_admitted_keeps<Tx: MempoolTx>(
    s: PoolState<Tx>,
    txs: Seq<Arc<Tx>>,
    sizes: Seq<usize>,
    round: u64,
)
    ensures
        s.admitted(txs, sizes, round).high == s.high,
    decreases txs.len(),
{
    if txs.len() > 0 {
        lemma_admitted_keeps(s, txs.drop_last(), sizes, round);
    }
}

/// Launching leaves the watermarks alone, moves exactly these keys, and files them at `round`.
pub proof fn lemma_launch_keys_keeps<Tx: MempoolTx>(s: PoolState<Tx>, keys: Seq<TxKey>, round: u64)
    ensures
        ({
            let t = s.launch_keys(keys, round);
            &&& t.high == s.high
            &&& t.batch_size == s.batch_size
            &&& t.mineable == s.mineable.remove_keys(keys.to_set())
            &&& t.inflight.dom() == s.inflight.dom().union(keys.to_set())
            &&& forall|k: TxKey|
                #![trigger t.inflight[k]]
                t.inflight.contains_key(k) ==> t.inflight[k] == (if keys.contains(k) {
                    InflightEntry { tx: s.mineable[k].0, size: s.mineable[k].1, round }
                } else {
                    s.inflight[k]
                })
            &&& s.by_round.contains_key(round) ==> t.by_round == s.by_round.insert(
                round,
                s.by_round[round].union(keys.to_set()),
            )
        }),
    decreases keys.len(),
{
    let t = s.launch_keys(keys, round);
    if keys.len() == 0 {
        assert(keys.to_set() =~= Set::empty());
        assert(s.mineable.remove_keys(keys.to_set()) =~= s.mineable);
        assert(s.inflight.dom().union(keys.to_set()) =~= s.inflight.dom());
        assert(s.by_round.contains_key(round) ==> s.by_round =~~= s.by_round.insert(
            round,
            s.by_round[round].union(keys.to_set()),
        ));
    } else {
        let a = keys.drop_last();
        let k = keys.last();
        lemma_launch_keys_keeps(s, a, round);
        let u = s.launch_keys(a, round);
        assert forall|x: TxKey| keys.contains(x) <==> a.contains(x) || x == k by {
            assert(keys[keys.len() - 1] == k);
            if a.contains(x) {
                let n = choose|n: int| 0 <= n < a.len() && a[n] == x;
                assert(keys[n] == x);
            }
            if keys.contains(x) && x != k {
                let n = choose|n: int| 0 <= n < keys.len() && keys[n] == x;
                assert(a[n] == x);
            }
        }
        assert(t.mineable =~= s.mineable.remove_keys(keys.to_set()));
        assert(t.inflight.dom() =~= s.inflight.dom().union(keys.to_set()));
        if s.by_round.contains_key(round) {
            assert(t.by_round =~~= s.by_round.insert(
                round,
                s.by_round[round].union(keys.to_set()),
            ));
        }
    }
}

/// The keys of the next batch are mineable and distinct, and they are taken in order: none
/// that is left comes before one that was taken.
pub proof fn law_batch_in_order<Tx: MempoolTx>(
    mineable: Map<TxKey, (Arc<Tx>, usize)>,
    batch_size: usize,
    used: nat,
)
    requires
        mineable.dom().finite(),
    ensures
        ({
            let keys = next_keys(mineable, batch_size, used);
            &&& forall|i: int|
                0 <= i < keys.len() ==> mineable.contains_key(#[trigger] keys[i])
            &&& forall|i: int, j: int|
                0 <= i < j < keys.len() ==> key_le(#[trigger] keys[i], #[trigger] keys[j])
                    && keys[i] != keys[j]
            &&& forall|i: int, k: TxKey|
                0 <= i < keys.len() && mineable.contains_key(k) && !keys.contains(k) ==> key_le(
                    #[trigger] keys[i],
                    k,
                ) && #[trigger] mineable.contains_key(k)
        }),
    decreases mineable.dom().len(),
{
    let keys = next_keys(mineable, batch_size, used);
    let k0 = least(mineable.dom());
    if used < batch_size && mineable.contains_key(k0) && used + mineable[k0].1 <= batch_size {
        let rest = mineable.remove(k0);
        let tail = next_keys(rest, batch_size, used + mineable[k0].1 as nat);
        lemma_least_exists(mineable.dom(), k0);
        law_batch_in_order(rest, batch_size, used + mineable[k0].1 as nat);
        assert(keys =~= seq![k0] + tail);
        assert(keys[0] == k0);
        assert forall|i: int| 0 <= i < keys.len() implies mineable.contains_key(
            #[trigger] keys[i],
        ) by {
            if i > 0 {
                assert(keys[i] == tail[i - 1]);
                assert(rest.contains_key(tail[i - 1]));
            }
        }
        assert forall|i: int, j: int| 0 <= i < j < keys.len() implies key_le(
            #[trigger] keys[i],
            #[trigger] keys[j],
        ) && keys[i] != keys[j] by {
            assert(keys[j] == tail[j - 1]);
            assert(rest.contains_key(tail[j - 1]));
            if i > 0 {
                assert(keys[i] == tail[i - 1]);
            } else {
                assert(mineable.dom().contains(keys[j]));
            }
        }
        assert forall|i: int, k: TxKey|
            0 <= i < keys.len() && mineable.contains_key(k) && !keys.contains(k) implies key_le(
            #[trigger] keys[i],
            k,
        ) && #[trigger] mineable.contains_key(k) by {
            if i > 0 {
                assert(keys[i] == tail[i - 1]);
                assert(k != keys[0]);
                assert(!tail.contains(k)) by {
                    if tail.contains(k) {
                        let n = choose|n: int| 0 <= n < tail.len() && tail[n] == k;
                        assert(keys[n + 1] == k);
                    }
                }
                assert(rest.contains_key(k));
            } else {
                assert(mineable.dom().contains(k));
            }
        }
    }
}

/// A batch holds at most as many bytes as fill it.
pub proof fn law_batch_fits<Tx: MempoolTx>(
    mineable: Map<TxKey, (Arc<Tx>, usize)>,
    batch_size: usize,
    used: nat,
)
    requires
        mineable.dom().finite(),
        used <= batch_size,
    ensures
        used + sum_sizes(mineable, next_keys(mineable, batch_size, used)) <= batch_size,
    decreases mineable.dom().len(),
{
    let k = least(mineable.dom());
    if used < batch_size && mineable.contains_key(k) && used + mineable[k].1 <= batch_size {
        let rest = mineable.remove(k);
        let tail = next_keys(rest, batch_size, used + mineable[k].1 as nat);
        law_batch_fits(rest, batch_size, used + mineable[k].1 as nat);
        law_batch_in_order(rest, batch_size, used + mineable[k].1 as nat);
        lemma_sum_sizes_cons(mineable, k, tail);
    }
}

/// The first entry and the others.
pub proof fn lemma_sum_sizes_cons<Tx>(
    m: Map<TxKey, (Arc<Tx>, usize)>,
    k: TxKey,
    tail: Seq<TxKey>,
)
    requires
        forall|i: int| 0 <= i < tail.len() ==> m.remove(k).contains_key(#[trigger] tail[i]),
    ensures
        sum_sizes(m, seq![k] + tail) == m[k].1 as nat + sum_sizes(m.remove(k), tail),
    decreases tail.len(),
{
    let all = seq![k] + tail;
    if tail.len() == 0 {
        assert(all.drop_last() =~= Seq::empty());
        assert(all.last() == k);
        reveal_with_fuel(sum_sizes, 2);
    } else {
        assert(all.drop_last() =~= seq![k] + tail.drop_last());
        assert(m.remove(k).contains_key(tail[tail.len() - 1]));
        lemma_sum_sizes_cons(m, k, tail.drop_last());
    }
}

/// The sizes are the same in both.
pub proof fn lemma_sum_sizes_same<Tx>(
    a: Map<TxKey, (Arc<Tx>, usize)>,
    b: Map<TxKey, (Arc<Tx>, usize)>,
    keys: Seq<TxKey>,
)
    requires
        forall|i: int| 0 <= i < keys.len() ==> a[#[trigger] keys[i]] == b[keys[i]],
    ensures
        sum_sizes(a, keys) == sum_sizes(b, keys),
    decreases keys.len(),
{
    if keys.len() > 0 {
        assert(keys.last() == keys[keys.len() - 1]);
        lemma_sum_sizes_same(a, b, keys.drop_last());
    }
}

/// The next batch takes mineable transactions in order, up to a full batch of bytes. None that is
/// left and no larger than a batch comes before one that is taken. Nothing is held up: if any
/// mineable transaction is no larger than a batch, the batch has one.
pub proof fn law_next_batch<Tx: MempoolTx>(s: PoolState<Tx>)
    requires
        s.mineable.dom().finite(),
    ensures
        ({
            let keys = s.next_batch();
            &&& forall|i: int|
                0 <= i < keys.len() ==> s.mineable.contains_key(#[trigger] keys[i])
            &&& forall|i: int, j: int|
                0 <= i < j < keys.len() ==> key_le(#[trigger] keys[i], #[trigger] keys[j])
                    && keys[i] != keys[j]
            &&& forall|i: int, k: TxKey|
                0 <= i < keys.len() && s.mineable.contains_key(k) && s.mineable[k].1 <= s.batch_size
                    && !keys.contains(k) ==> key_le(#[trigger] keys[i], k)
                    && #[trigger] s.mineable.contains_key(k)
            &&& sum_sizes(s.mineable, keys) <= s.batch_size
            &&& forall|k: TxKey| #[trigger]
                s.mineable.contains_key(k) && s.mineable[k].1 <= s.batch_size && s.batch_size > 0
                    ==> keys.len() > 0
        }),
{
    let fit = batchable(s.mineable, s.batch_size);
    let keys = s.next_batch();
    vstd::set_lib::lemma_set_subset_finite(s.mineable.dom(), fit.dom());
    law_batch_in_order(fit, s.batch_size, 0);
    law_batch_fits(fit, s.batch_size, 0);
    assert forall|i: int| 0 <= i < keys.len() implies s.mineable.contains_key(#[trigger] keys[i])
        && fit[keys[i]] == s.mineable[keys[i]] by {
        assert(fit.contains_key(keys[i]));
    }
    lemma_sum_sizes_same(fit, s.mineable, keys);
    assert forall|i: int, k: TxKey|
        0 <= i < keys.len() && s.mineable.contains_key(k) && s.mineable[k].1 <= s.batch_size
            && !keys.contains(k) implies key_le(#[trigger] keys[i], k)
        && #[trigger] s.mineable.contains_key(k) by {
        assert(fit.contains_key(k));
    }
    assert forall|k: TxKey| #[trigger]
        s.mineable.contains_key(k) && s.mineable[k].1 <= s.batch_size && s.batch_size
            > 0 implies keys.len() > 0 by {
        assert(fit.dom().contains(k));
        lemma_least_exists(fit.dom(), k);
        assert(fit.contains_key(least(fit.dom())));
    }
}

/// A finite set that is not empty has a first key.
pub proof fn lemma_least_exists(s: Set<TxKey>, x: TxKey)
    requires
        s.finite(),
        s.contains(x),
    ensures
        is_least(s, least(s)),
    decreases s.len(),
{
    let rest = s.remove(x);
    if rest.len() == 0 {
        assert(rest =~= Set::empty());
        assert forall|j: TxKey| #[trigger] s.contains(j) implies key_le(x, j) by {
            if j != x {
                assert(rest.contains(j));
            }
        }
        assert(is_least(s, x));
    } else {
        let y = rest.choose();
        lemma_least_exists(rest, y);
        let m = least(rest);
        let w = if key_le(x, m) {
            x
        } else {
            m
        };
        assert forall|j: TxKey| #[trigger] s.contains(j) implies key_le(w, j) by {
            if j != x {
                assert(rest.contains(j));
            }
        }
        assert(is_least(s, w));
    }
}

/// Undoing a batch: when nothing was in flight at `round`, rolling that round back after a
/// batch was made leaves the pool as it was, but for the request to restart the timer and for
/// an empty place of the round in the index.
pub proof fn law_rollback_undoes_batch<Tx: MempoolTx>(s: PoolState<Tx>, round: u64)
    requires
        s.inv(),
        forall|k: TxKey| #[trigger] s.inflight.contains_key(k) ==> s.inflight[k].round != round,
    ensures
        s.made(round).rolled_back(seq![round]) == (PoolState {
            timer_reset: true,
            by_round: s.by_round.remove(round),
            ..s
        }),
        s.made(round).rolled_back(seq![round]).bytes() == s.bytes(),
{
    let keys = s.next_batch();
    let rounds = seq![round];
    assert(rounds[0] == round);
    law_next_batch(s);
    let u = s.open_round(round);
    lemma_launch_keys_keeps(u, keys, round);
    let t = s.made(round);
    assert forall|k: TxKey| keys.contains(k) implies s.mineable.contains_key(k) by {
        let n = choose|n: int| 0 <= n < keys.len() && keys[n] == k;
        assert(s.mineable.contains_key(keys[n]));
    }
    assert forall|k: TxKey| t.orphaned(rounds, k) <==> keys.contains(k) by {
        if s.inflight.contains_key(k) {
            assert(s.inflight[k].round != round);
        }
        if t.inflight.contains_key(k) {
            assert(t.inflight[k].round == if keys.contains(k) {
                round
            } else {
                s.inflight[k].round
            });
        }
    }
    let b = t.rolled_back(rounds);
    assert(b.mineable =~= s.mineable);
    assert(b.inflight =~= s.inflight);
    assert(b.by_round =~= s.by_round.remove(round));
}

/// A rollback touches nothing but what is in flight at the listed rounds: each such transaction
/// is mineable again with the size that was recorded, or gone if it became a replay.
pub proof fn law_rollback_is_local<Tx: MempoolTx>(s: PoolState<Tx>, rounds: Seq<u64>, k: TxKey)
    requires
        s.inv(),
    ensures
        ({
            let t = s.rolled_back(rounds);
            &&& t.high == s.high
            &&& !s.orphaned(rounds, k) ==> (t.mineable.contains_key(k) == s.mineable.contains_key(k))
                && (t.inflight.contains_key(k) == s.inflight.contains_key(k))
            &&& !s.orphaned(rounds, k) && s.mineable.contains_key(k) ==> t.mineable[k]
                == s.mineable[k]
            &&& !s.orphaned(rounds, k) && s.inflight.contains_key(k) ==> t.inflight[k]
                == s.inflight[k]
            &&& s.orphaned(rounds, k) ==> !t.inflight.contains_key(k)
            &&& s.orphaned(rounds, k) && k.1 > s.hi(k.0) ==> t.mineable.contains_key(k)
                && t.mineable[k] == (s.inflight[k].tx, s.inflight[k].size)
            &&& s.orphaned(rounds, k) && k.1 <= s.hi(k.0) ==> !t.mineable.contains_key(k)
        }),
{
}

/// A transaction that a proposal carried is refused from then on, until it is rolled back.
pub proof fn law_admitted_is_refused<Tx: MempoolTx>(
    s: PoolState<Tx>,
    txs: Seq<Arc<Tx>>,
    sizes: Seq<usize>,
    round: u64,
)
    ensures
        forall|k: TxKey|
            batch_keys(txs).contains(k) ==> #[trigger] s.admitted(txs, sizes, round).refuses(k),
    decreases txs.len(),
{
    if txs.len() > 0 {
        law_admitted_is_refused(s, txs.drop_last(), sizes, round);
        lemma_settled_keys(txs);
        let u = s.admitted(txs.drop_last(), sizes, round);
        let t = s.admitted(txs, sizes, round);
        assert(t.high == u.high);
        assert forall|k: TxKey| batch_keys(txs).contains(k) implies #[trigger] t.refuses(k) by {
            if k != key_of(&*txs.last()) {
                assert(batch_keys(txs.drop_last()).contains(k));
                assert(u.refuses(k));
            }
        }
    }
}

/// Admitting the same proposal once more changes nothing.
pub proof fn law_admission_idempotent<Tx: MempoolTx>(
    s: PoolState<Tx>,
    txs: Seq<Arc<Tx>>,
    sizes: Seq<usize>,
    round: u64,
)
    ensures
        s.admitted(txs, sizes, round).admitted(txs, sizes, round) == s.admitted(txs, sizes, round),
{
    let t = s.admitted(txs, sizes, round);
    law_admitted_is_refused(s, txs, sizes, round);
    lemma_admitted_opens(s, txs, sizes, round);
    lemma_admit_refused(t, txs, sizes, round, txs.len() as int);
    assert(txs.take(txs.len() as int) =~= txs);
}

/// Admitting the same transactions at another round, too, does no more than to give that round a
/// place in the index: what is in flight stays where it is.
pub proof fn law_admitted_once<Tx: MempoolTx>(
    s: PoolState<Tx>,
    txs: Seq<Arc<Tx>>,
    sizes: Seq<usize>,
    round: u64,
    later_sizes: Seq<usize>,
    later: u64,
)
    ensures
        s.admitted(txs, sizes, round).admitted(txs, later_sizes, later) == s.admitted(
            txs,
            sizes,
            round,
        ).open_round(later),
{
    law_admitted_is_refused(s, txs, sizes, round);
    lemma_admit_refused(s.admitted(txs, sizes, round), txs, later_sizes, later, txs.len() as int);
    assert(txs.take(txs.len() as int) =~= txs);
}

/// Admission gives the round its place in the index.
proof fn lemma_admitted_opens<Tx: MempoolTx>(
    s: PoolState<Tx>,
    txs: Seq<Arc<Tx>>,
    sizes: Seq<usize>,
    round: u64,
)
    ensures
        s.admitted(txs, sizes, round).by_round.contains_key(round),
    decreases txs.len(),
{
    if txs.len() > 0 {
        lemma_admitted_opens(s, txs.drop_last(), sizes, round);
    }
}

/// A proposal of which everything is refused gives its round a place, and changes nothing else.
proof fn lemma_admit_refused<Tx: MempoolTx>(
    t: PoolState<Tx>,
    txs: Seq<Arc<Tx>>,
    sizes: Seq<usize>,
    round: u64,
    n: int,
)
    requires
        0 <= n <= txs.len(),
        forall|k: TxKey| batch_keys(txs).contains(k) ==> #[trigger] t.refuses(k),
    ensures
        t.admitted(txs.take(n), sizes, round) == t.open_round(round),
    decreases n,
{
    if n > 0 {
        let a = txs.take(n);
        assert(a.drop_last() =~= txs.take(n - 1));
        lemma_admit_refused(t, txs, sizes, round, n - 1);
        assert(key_of(&*txs[n - 1]) == key_of(&*a.last()));
        assert(batch_keys(txs).contains(key_of(&*a.last())));
        assert(t.refuses(key_of(&*a.last())));
    }
}

/// Something that is done to a pool.
pub enum PoolOp<Tx> {
    Add { tx: Arc<Tx>, size: usize },
    Admit { txs: Seq<Arc<Tx>>, sizes: Seq<usize>, round: u64 },
    Make { round: u64 },
    Commit { txs: Seq<Arc<Tx>>, round: u64 },
    Rollback { rounds: Seq<u64> },
    Timer { due: bool },
}

impl<Tx: MempoolTx> PoolState<Tx> {
    /// The pool after something was done to it.
    pub open spec fn did(self, op: PoolOp<Tx>) -> Self {
        match op {
            PoolOp::Add { tx, size } => self.add(tx, size),
            PoolOp::Admit { txs, sizes, round } => self.admitted(txs, sizes, round),
            PoolOp::Make { round } => self.made(round),
            PoolOp::Commit { txs, round } => self.committed(txs, round),
            PoolOp::Rollback { rounds } => self.rolled_back(rounds),
            PoolOp::Timer { due } => PoolState { timer_reset: due, ..self },
        }
    }

    /// The pool after all of this was done to it, in this order.
    pub open spec fn did_all(self, ops: Seq<PoolOp<Tx>>) -> Self
        decreases ops.len(),
    {
        if ops.len() == 0 {
            self
        } else {
            self.did_all(ops.drop_last()).did(ops.last())
        }
    }
}

/// Whether a transaction with this key is in a batch that this commits.
pub open spec fn commits_key<Tx: MempoolTx>(op: PoolOp<Tx>, k: TxKey) -> bool {
    op matches PoolOp::Commit { txs, round } && batch_keys(txs).contains(k)
}

/// Whether a transaction with this key is in a batch that one of these commits.
pub open spec fn commit_among<Tx: MempoolTx>(ops: Seq<PoolOp<Tx>>, k: TxKey) -> bool {
    exists|i: int| 0 <= i < ops.len() && #[trigger] commits_key(ops[i], k)
}

/// Whatever is done to a pool, it keeps its invariant: nothing is both mineable and in flight,
/// nothing mineable is a replay, and the index by round lists exactly what is in flight.
pub proof fn law_every_pool_is_sound<Tx: MempoolTx>(s: PoolState<Tx>, ops: Seq<PoolOp<Tx>>)
    requires
        s.inv(),
    ensures
        s.did_all(ops).inv(),
        s.did_all(ops).mineable.dom().disjoint(s.did_all(ops).inflight.dom()),
    decreases ops.len(),
{
    if ops.len() > 0 {
        let u = s.did_all(ops.drop_last());
        law_every_pool_is_sound(s, ops.drop_last());
        match ops.last() {
            PoolOp::Add { tx, size } => {},
            PoolOp::Admit { txs, sizes, round } => {
                lemma_admitted_inv(u, txs, sizes, round);
            },
            PoolOp::Make { round } => {
                let keys = u.next_batch();
                lemma_open_round_inv(u, round);
                law_next_batch(u);
                lemma_launch_keys_inv(u.open_round(round), keys, round);
            },
            PoolOp::Commit { txs, round } => {
                lemma_committed_inv(u, txs, round);
            },
            PoolOp::Rollback { rounds } => {
                lemma_rolled_back_inv(u, rounds);
            },
            PoolOp::Timer { due } => {},
        }
    }
}

/// An admission keeps the invariant.
proof fn lemma_admitted_inv<Tx: MempoolTx>(
    s: PoolState<Tx>,
    txs: Seq<Arc<Tx>>,
    sizes: Seq<usize>,
    round: u64,
)
    requires
        s.inv(),
    ensures
        s.admitted(txs, sizes, round).inv(),
    decreases txs.len(),
{
    if txs.len() == 0 {
        lemma_open_round_inv(s, round);
    } else {
        let u = s.admitted(txs.drop_last(), sizes, round);
        lemma_admitted_inv(s, txs.drop_last(), sizes, round);
        lemma_admitted_opens(s, txs.drop_last(), sizes, round);
        let k = key_of(&*txs.last());
        if !u.refuses(k) {
            let size = if u.mineable.contains_key(k) {
                u.mineable[k].1
            } else {
                sizes[txs.len() - 1]
            };
            lemma_launch_inv(u, k, txs.last(), size, round);
        }
    }
}

/// Launching distinct mineable keys keeps the invariant.
proof fn lemma_launch_keys_inv<Tx: MempoolTx>(s: PoolState<Tx>, keys: Seq<TxKey>, round: u64)
    requires
        s.inv(),
        s.by_round.contains_key(round),
        forall|i: int| 0 <= i < keys.len() ==> s.mineable.contains_key(#[trigger] keys[i]),
        forall|i: int, j: int| 0 <= i < j < keys.len() ==> keys[i] != keys[j],
    ensures
        s.launch_keys(keys, round).inv(),
    decreases keys.len(),
{
    if keys.len() > 0 {
        let a = keys.drop_last();
        let k = keys.last();
        assert forall|i: int| 0 <= i < a.len() implies s.mineable.contains_key(#[trigger] a[i]) by {
            assert(a[i] == keys[i]);
        }
        lemma_launch_keys_inv(s, a, round);
        lemma_launch_keys_keeps(s, a, round);
        assert(k == keys[keys.len() - 1]);
        assert(s.mineable.contains_key(k));
        assert(!a.contains(k)) by {
            if a.contains(k) {
                let n = choose|n: int| 0 <= n < a.len() && a[n] == k;
                assert(keys[n] == k);
            }
        }
        assert(!s.launch_keys(a, round).inflight.dom().contains(k));
        lemma_launch_inv(
            s.launch_keys(a, round),
            k,
            s.mineable[k].0,
            s.mineable[k].1,
            round,
        );
    }
}

/// The watermark of a client is the largest nonce it has in all the batches that committed,
/// whatever their order and whatever else happened; a client with none has no watermark.
pub proof fn law_watermark_is_highest<Tx: MempoolTx>(
    s: PoolState<Tx>,
    ops: Seq<PoolOp<Tx>>,
    c: ClientId,
)
    requires
        s.high == Map::<ClientId, Nonce>::empty(),
    ensures
        forall|n: Nonce| #[trigger]
            commit_among(ops, (c, n)) ==> s.did_all(ops).high.contains_key(c) && n
                <= s.did_all(ops).high[c],
        s.did_all(ops).high.contains_key(c) ==> commit_among(ops, (c, s.did_all(ops).high[c])),
    decreases ops.len(),
{
    if ops.len() > 0 {
        let a = ops.drop_last();
        let op = ops.last();
        let u = s.did_all(a);
        let t = s.did_all(ops);
        law_watermark_is_highest(s, a, c);
        assert(ops[ops.len() - 1] == op);
        assert forall|k: TxKey| #[trigger] commit_among(ops, k) <==> commit_among(a, k)
            || commits_key(op, k) by {
            if commit_among(a, k) {
                let i = choose|i: int| 0 <= i < a.len() && #[trigger] commits_key(a[i], k);
                assert(commits_key(ops[i], k));
            }
            if commit_among(ops, k) {
                let i = choose|i: int| 0 <= i < ops.len() && #[trigger] commits_key(ops[i], k);
                if i < a.len() {
                    assert(commits_key(a[i], k));
                }
            }
            if commits_key(op, k) {
                assert(commits_key(ops[ops.len() - 1], k));
            }
        }
        match op {
            PoolOp::Commit { txs, round } => {
                lemma_high_after(u.high, txs);
                lemma_high_after_from(u.high, txs, c);
                assert(t.high == high_after(u.high, txs));
                assert forall|n: Nonce| #[trigger] commit_among(ops, (c, n)) implies t.high.contains_key(
                    c,
                ) && n <= t.high[c] by {
                    assert(watermark(u.high, c) <= watermark(t.high, c));
                    if commits_key(op, (c, n)) {
                        let i = choose|i: int|
                            0 <= i < txs.len() && #[trigger] key_of(&*txs[i]) == (c, n);
                        assert(key_of(&*txs[i]).1 <= watermark(t.high, c));
                    }
                }
                if t.high.contains_key(c) {
                    assert(commit_among(ops, (c, t.high[c])));
                }
            },
            PoolOp::Admit { txs, sizes, round } => {
                lemma_admitted_keeps(u, txs, sizes, round);
            },
            PoolOp::Make { round } => {
                lemma_launch_keys_keeps(
                    u.open_round(round),
                    u.next_batch(),
                    round,
                );
            },
            _ => {},
        }
        assert(!(op is Commit) ==> t.high == u.high);
        if !(op is Commit) && t.high.contains_key(c) {
            assert(commit_among(ops, (c, t.high[c])));
        }
    }
}

/// Which clients have a watermark after a batch, and where the watermark comes from.
proof fn lemma_high_after_from<Tx: MempoolTx>(
    high: Map<ClientId, Nonce>,
    txs: Seq<Arc<Tx>>,
    c: ClientId,
)
    ensures
        ({
            let g = high_after(high, txs);
            &&& high.contains_key(c) ==> g.contains_key(c)
            &&& forall|n: Nonce| #[trigger] batch_keys(txs).contains((c, n)) ==> g.contains_key(c)
            &&& g.contains_key(c) ==> (high.contains_key(c) && g[c] == high[c]) || batch_keys(
                txs,
            ).contains((c, g[c]))
        }),
    decreases txs.len(),
{
    if txs.len() > 0 {
        let a = txs.drop_last();
        lemma_high_after_from(high, a, c);
        lemma_settled_keys(txs);
    }
}

/// Two pools in which the same transactions committed have the same watermarks.
pub proof fn law_commit_order_is_free<Tx: MempoolTx>(
    s: PoolState<Tx>,
    a: Seq<PoolOp<Tx>>,
    b: Seq<PoolOp<Tx>>,
)
    requires
        s.high == Map::<ClientId, Nonce>::empty(),
        forall|k: TxKey| #[trigger] commit_among(a, k) <==> commit_among(b, k),
    ensures
        s.did_all(a).high == s.did_all(b).high,
{
    let x = s.did_all(a).high;
    let y = s.did_all(b).high;
    assert forall|c: ClientId|
        #![trigger x.dom().contains(c)]
        #![trigger y.dom().contains(c)]
        x.dom().contains(c) == y.dom().contains(c) && (x.dom().contains(c) ==> x[c] == y[c]) by {
        law_watermark_is_highest(s, a, c);
        law_watermark_is_highest(s, b, c);
        if x.contains_key(c) {
            assert(commit_among(b, (c, x[c])));
        }
        if y.contains_key(c) {
            assert(commit_among(a, (c, y[c])));
        }
    }
    assert(x =~= y);
}

} // verus!
