//! What is done to the keyed pool and to its batcher by each thing that happens, case by case.

use crate::digest::Digest;
use crate::hash::hash_of;
use crate::mempool::client_listener::{fan_out, reply_address, submitted, ListenerAction};
use crate::mempool::confirmation_router::{RouterAction, RouterState};
use crate::mempool::messages::{BatcherConsensusMsg, ClientMsg, PeerAddr};
use crate::mempool::rr_batcher::{ending, lasting, BatcherError, BatcherEvent, BatcherState};
use crate::mempool::tx::{key_le, key_of, ClientId, MempoolTx, Nonce, Replica, TxKey};
use crate::mempool::tx_pool::{
    batchable, high_after, law_batch_in_order, law_next_batch, least, lemma_launch_keys_keeps,
    lemma_least_exists, lemma_sum_sizes_cons, lemma_sum_sizes_same, lemma_total_insert,
    lemma_total_remove, next_keys, stale, sum_sizes, total_size, InflightEntry, PoolState,
};
use std::sync::Arc;
use vstd::prelude::*;

verus! {

/// Whether a client's transaction with this nonce is a replay or in flight: its nonce is not above
/// the highest the client has committed, zero if none, or it was proposed and not settled yet.
pub open spec fn replayed_or_flying<Tx>(s: PoolState<Tx>, c: ClientId, n: Nonce) -> bool {
    ||| s.high.contains_key(c) && n <= s.high[c]
    ||| !s.high.contains_key(c) && n == 0
    ||| s.inflight.contains_key((c, n))
}

/// A submitted transaction is dropped if it is a replay or in flight; otherwise it is mineable with
/// its size, in place of one with the same client and nonce, and the bytes that wait grow by the
/// difference.
pub proof fn law_submission<Tx: MempoolTx>(s: PoolState<Tx>, tx: Arc<Tx>, size: usize)
    ensures
        ({
            let c = tx.spec_client_id();
            let n = tx.spec_nonce();
            let t = s.add(tx, size);
            &&& replayed_or_flying(s, c, n) ==> t == s
            &&& !replayed_or_flying(s, c, n) ==> t == PoolState {
                mineable: s.mineable.insert((c, n), (tx, size)),
                ..s
            }
            &&& !replayed_or_flying(s, c, n) && s.mineable.dom().finite() ==> t.bytes() + (
            if s.mineable.contains_key((c, n)) {
                s.mineable[(c, n)].1 as nat
            } else {
                0
            }) == s.bytes() + size
        }),
{
    let k = (tx.spec_client_id(), tx.spec_nonce());
    if s.mineable.dom().finite() {
        lemma_total_insert(s.mineable, k, (tx, size));
        if s.mineable.contains_key(k) {
            lemma_total_remove(s.mineable, k);
        } else {
            assert(s.mineable.remove(k) =~= s.mineable);
        }
    }
}

/// A transaction that a proposal carries is passed over if it is a replay or in flight; otherwise
/// it is in flight at the round of the proposal and not mineable, with the size it was submitted
/// with, or its size in the proposal if it was not submitted here.
pub proof fn law_carried<Tx: MempoolTx>(s: PoolState<Tx>, tx: Arc<Tx>, wire: usize, round: u64)
    ensures
        ({
            let c = tx.spec_client_id();
            let n = tx.spec_nonce();
            let t = s.admit_one(tx, wire, round);
            &&& replayed_or_flying(s, c, n) ==> t == s
            &&& !replayed_or_flying(s, c, n) && !s.mineable.contains_key((c, n)) ==> t
                == PoolState {
                mineable: s.mineable.remove((c, n)),
                inflight: s.inflight.insert((c, n), InflightEntry { tx, size: wire, round }),
                by_round: s.by_round.insert(round, s.by_round[round].insert((c, n))),
                ..s
            }
            &&& !replayed_or_flying(s, c, n) && s.mineable.contains_key((c, n)) ==> t == PoolState {
                mineable: s.mineable.remove((c, n)),
                inflight: s.inflight.insert(
                    (c, n),
                    InflightEntry { tx, size: s.mineable[(c, n)].1, round },
                ),
                by_round: s.by_round.insert(round, s.by_round[round].insert((c, n))),
                ..s
            }
        }),
{
}

/// The transactions of a proposal are seen one after another, each with its own size, once the
/// round of the proposal has a place in the index.
pub proof fn law_carried_in_turn<Tx: MempoolTx>(
    s: PoolState<Tx>,
    before: Seq<Arc<Tx>>,
    tx: Arc<Tx>,
    sizes: Seq<usize>,
    round: u64,
)
    ensures
        s.admitted(Seq::empty(), sizes, round) == (if s.by_round.contains_key(round) {
            s
        } else {
            PoolState { by_round: s.by_round.insert(round, Set::empty()), ..s }
        }),
        s.admitted(before.push(tx), sizes, round) == s.admitted(before, sizes, round).admit_one(
            tx,
            sizes[before.len() as int],
            round,
        ),
{
    assert(before.push(tx).drop_last() =~= before);
}

/// When a batch is made, what it takes is in flight at its round, as it was submitted, and is not
/// mineable any more; everything else stays where it is. The timer is to be restarted.
pub proof fn law_batch_takes_off<Tx: MempoolTx>(s: PoolState<Tx>, round: u64, k: TxKey)
    requires
        s.inv(),
    ensures
        ({
            let keys = s.next_batch();
            let t = s.made(round);
            &&& s.next_payload().len() == keys.len()
            &&& forall|i: int|
                0 <= i < keys.len() ==> #[trigger] s.next_payload()[i] == s.mineable[keys[i]].0
            &&& keys.contains(k) ==> {
                &&& s.mineable.contains_key(k)
                &&& !t.mineable.contains_key(k)
                &&& t.inflight.contains_key(k)
                &&& t.inflight[k] == InflightEntry {
                    tx: s.mineable[k].0,
                    size: s.mineable[k].1,
                    round,
                }
            }
            &&& !keys.contains(k) ==> {
                &&& t.mineable.contains_key(k) == s.mineable.contains_key(k)
                &&& t.mineable.contains_key(k) ==> t.mineable[k] == s.mineable[k]
                &&& t.inflight.contains_key(k) == s.inflight.contains_key(k)
                &&& t.inflight.contains_key(k) ==> t.inflight[k] == s.inflight[k]
            }
            &&& t.by_round == s.by_round.insert(
                round,
                (if s.by_round.contains_key(round) {
                    s.by_round[round]
                } else {
                    Set::empty()
                }).union(keys.to_set()),
            )
            &&& t.timer_reset
            &&& t.high == s.high
            &&& t.batch_size == s.batch_size
        }),
{
    let keys = s.next_batch();
    let u = s.open_round(round);
    lemma_launch_keys_keeps(u, keys, round);
    law_next_batch(s);
    let t = s.made(round);
    if keys.contains(k) {
        let i = choose|i: int| 0 <= i < keys.len() && keys[i] == k;
        assert(s.mineable.contains_key(keys[i]));
        assert(t.inflight.dom().contains(k));
        assert(u.launch_keys(keys, round).inflight[k] == InflightEntry {
            tx: s.mineable[k].0,
            size: s.mineable[k].1,
            round,
        });
    } else {
        assert(t.inflight.dom().contains(k) <==> s.inflight.dom().contains(k));
        assert(u.launch_keys(keys, round).inflight.contains_key(k) ==> u.launch_keys(
            keys,
            round,
        ).inflight[k] == s.inflight[k]);
    }
    assert(t.by_round =~= s.by_round.insert(
        round,
        (if s.by_round.contains_key(round) {
            s.by_round[round]
        } else {
            Set::empty()
        }).union(keys.to_set()),
    ));
}

/// A batch takes as much as it can: of what is left and no larger than a batch, the first in order
/// does not fit any more, unless the batch is full to the byte.
pub proof fn law_batch_is_filled<Tx: MempoolTx>(s: PoolState<Tx>, k: TxKey)
    requires
        s.mineable.dom().finite(),
        s.mineable.contains_key(k),
        s.mineable[k].1 <= s.batch_size,
        !s.next_batch().contains(k),
        forall|j: TxKey| #[trigger]
            s.mineable.contains_key(j) && s.mineable[j].1 <= s.batch_size
                && !s.next_batch().contains(j) ==> key_le(k, j),
    ensures
        sum_sizes(s.mineable, s.next_batch()) + s.mineable[k].1 > s.batch_size || sum_sizes(
            s.mineable,
            s.next_batch(),
        ) >= s.batch_size,
{
    let fit = batchable(s.mineable, s.batch_size);
    vstd::set_lib::lemma_set_subset_finite(s.mineable.dom(), fit.dom());
    assert forall|j: TxKey| #[trigger]
        fit.contains_key(j) && !next_keys(fit, s.batch_size, 0).contains(j) implies key_le(k, j) by {
        assert(s.mineable.contains_key(j));
    }
    lemma_filled(fit, s.batch_size, 0, k);
    law_batch_in_order(fit, s.batch_size, 0);
    assert forall|i: int| 0 <= i < s.next_batch().len() implies fit[#[trigger] s.next_batch()[i]]
        == s.mineable[s.next_batch()[i]] by {
        assert(fit.contains_key(s.next_batch()[i]));
    }
    lemma_sum_sizes_same(fit, s.mineable, s.next_batch());
}

proof fn lemma_filled<Tx: MempoolTx>(
    m: Map<TxKey, (Arc<Tx>, usize)>,
    batch_size: usize,
    used: nat,
    k: TxKey,
)
    requires
        m.dom().finite(),
        m.contains_key(k),
        !next_keys(m, batch_size, used).contains(k),
        forall|j: TxKey| #[trigger]
            m.contains_key(j) && !next_keys(m, batch_size, used).contains(j) ==> key_le(k, j),
    ensures
        used + sum_sizes(m, next_keys(m, batch_size, used)) + m[k].1 > batch_size || used
            + sum_sizes(m, next_keys(m, batch_size, used)) >= batch_size,
    decreases m.dom().len(),
{
    let keys = next_keys(m, batch_size, used);
    let f = least(m.dom());
    lemma_least_exists(m.dom(), k);
    assert(m.contains_key(f));
    if used < batch_size && used + m[f].1 <= batch_size {
        let rest = m.remove(f);
        let tail = next_keys(rest, batch_size, used + m[f].1 as nat);
        assert(keys =~= seq![f] + tail);
        assert(keys[0] == f);
        assert forall|j: TxKey| tail.contains(j) implies keys.contains(j) by {
            let n = choose|n: int| 0 <= n < tail.len() && tail[n] == j;
            assert(keys[n + 1] == j);
        }
        assert forall|j: TxKey| #[trigger] rest.contains_key(j) && !tail.contains(j) implies key_le(
            k,
            j,
        ) by {
            assert(m.contains_key(j));
            if keys.contains(j) {
                let n = choose|n: int| 0 <= n < keys.len() && keys[n] == j;
                assert(tail[n - 1] == j);
            }
        }
        lemma_filled(rest, batch_size, used + m[f].1 as nat, k);
        law_batch_in_order(rest, batch_size, used + m[f].1 as nat);
        lemma_sum_sizes_cons(m, f, tail);
    } else {
        assert(keys =~= Seq::empty());
        assert(key_le(k, f) && key_le(f, k)) by {
            assert(m.dom().contains(k));
        }
        assert(k == f);
    }
}

/// When a batch commits nothing else goes than what is stale by then: a transaction of another
/// client, or with a nonce above the client's watermark, stays where it is. The round of the batch
/// loses its place in the index if nothing is in flight there any more, and no other round does.
pub proof fn law_commit_spares_the_rest<Tx: MempoolTx>(
    s: PoolState<Tx>,
    txs: Seq<Arc<Tx>>,
    round: u64,
    k: TxKey,
    at: u64,
)
    ensures
        ({
            let t = s.committed(txs, round);
            let touched = exists|i: int|
                0 <= i < txs.len() && (#[trigger] txs[i]).spec_client_id() == k.0;
            let above = !t.high.contains_key(k.0) && k.1 > 0 || t.high.contains_key(k.0) && k.1
                > t.high[k.0];
            &&& !touched || above ==> {
                &&& t.mineable.contains_key(k) == s.mineable.contains_key(k)
                &&& t.mineable.contains_key(k) ==> t.mineable[k] == s.mineable[k]
                &&& t.inflight.contains_key(k) == s.inflight.contains_key(k)
                &&& t.inflight.contains_key(k) ==> t.inflight[k] == s.inflight[k]
                &&& t.by_round.contains_key(at) ==> t.by_round[at].contains(k)
                    == s.by_round[at].contains(k)
            }
            &&& touched && !above ==> !t.mineable.contains_key(k) && !t.inflight.contains_key(k)
            &&& at != round ==> t.by_round.contains_key(at) == s.by_round.contains_key(at)
            &&& t.by_round.contains_key(round) ==> s.by_round.contains_key(round)
                && t.by_round[round] != Set::<TxKey>::empty()
            &&& s.by_round.contains_key(round) && !t.by_round.contains_key(round) ==> forall|j: TxKey|
                #[trigger] s.by_round[round].contains(j) ==> stale(t.high, txs).contains(j)
            &&& t.batch_size == s.batch_size
            &&& t.timer_reset == s.timer_reset
        }),
{
    let t = s.committed(txs, round);
    let touched = exists|i: int|
        0 <= i < txs.len() && (#[trigger] txs[i]).spec_client_id() == k.0;
    if stale(t.high, txs).contains(k) {
        let i = choose|i: int| 0 <= i < txs.len() && #[trigger] key_of(&*txs[i]).0 == k.0;
        assert(txs[i].spec_client_id() == k.0);
    }
    if touched {
        let i = choose|i: int| 0 <= i < txs.len() && (#[trigger] txs[i]).spec_client_id() == k.0;
        assert(key_of(&*txs[i]).0 == k.0);
    }
    if s.by_round.contains_key(round) && !t.by_round.contains_key(round) {
        let left = s.by_round[round].difference(stale(t.high, txs));
        assert(left =~= Set::<TxKey>::empty());
        assert forall|j: TxKey| #[trigger] s.by_round[round].contains(j) implies stale(
            t.high,
            txs,
        ).contains(j) by {
            assert(!left.contains(j));
        }
    }
}

/// The watermark of a client after a batch is the highest of what it was and of the client's nonces
/// in the batch; a client with nothing in the batch keeps its own, or none.
pub proof fn law_watermark_after_batch<Tx: MempoolTx>(
    high: Map<ClientId, Nonce>,
    txs: Seq<Arc<Tx>>,
    c: ClientId,
)
    ensures
        ({
            let h = high_after(high, txs);
            let touched = exists|i: int|
                0 <= i < txs.len() && (#[trigger] txs[i]).spec_client_id() == c;
            &&& h.contains_key(c) <==> high.contains_key(c) || touched
            &&& !touched && high.contains_key(c) ==> h[c] == high[c]
            &&& high.contains_key(c) ==> h[c] >= high[c]
            &&& forall|i: int|
                0 <= i < txs.len() && (#[trigger] txs[i]).spec_client_id() == c ==> h[c]
                    >= txs[i].spec_nonce()
            &&& h.contains_key(c) ==> (high.contains_key(c) && h[c] == high[c]) || (
            !high.contains_key(c) && h[c] == 0) || exists|i: int|
                0 <= i < txs.len() && (#[trigger] txs[i]).spec_client_id() == c
                    && txs[i].spec_nonce() == h[c]
        }),
    decreases txs.len(),
{
    if txs.len() > 0 {
        let a = txs.drop_last();
        let x = txs.last();
        law_watermark_after_batch(high, a, c);
        assert(txs[txs.len() - 1] == x);
        let h = high_after(high, txs);
        let g = high_after(high, a);
        assert forall|i: int|
            0 <= i < txs.len() && (#[trigger] txs[i]).spec_client_id() == c implies h[c]
            >= txs[i].spec_nonce() by {
            if i < a.len() {
                assert(a[i] == txs[i]);
            }
        }
        if exists|i: int| 0 <= i < txs.len() && (#[trigger] txs[i]).spec_client_id() == c {
            let i = choose|i: int| 0 <= i < txs.len() && (#[trigger] txs[i]).spec_client_id() == c;
            if i < a.len() {
                assert(a[i].spec_client_id() == c);
            }
        }
        if exists|i: int| 0 <= i < a.len() && (#[trigger] a[i]).spec_client_id() == c {
            let i = choose|i: int| 0 <= i < a.len() && (#[trigger] a[i]).spec_client_id() == c;
            assert(txs[i].spec_client_id() == c);
        }
        if g.contains_key(c) && exists|i: int|
            0 <= i < a.len() && (#[trigger] a[i]).spec_client_id() == c && a[i].spec_nonce()
                == g[c] {
            let i = choose|i: int|
                0 <= i < a.len() && (#[trigger] a[i]).spec_client_id() == c && a[i].spec_nonce()
                    == g[c];
            assert(txs[i].spec_client_id() == c && txs[i].spec_nonce() == g[c]);
        }
    }
}

/// A rollback takes the listed rounds out of the index and leaves the others, the watermarks, the
/// size of a batch and the timer alone.
pub proof fn law_rollback_frees_its_rounds<Tx: MempoolTx>(
    s: PoolState<Tx>,
    rounds: Seq<u64>,
    at: u64,
)
    ensures
        ({
            let t = s.rolled_back(rounds);
            &&& rounds.contains(at) ==> !t.by_round.contains_key(at)
            &&& !rounds.contains(at) ==> t.by_round.contains_key(at) == s.by_round.contains_key(at)
            &&& !rounds.contains(at) && s.by_round.contains_key(at) ==> t.by_round[at]
                == s.by_round[at]
            &&& t.high == s.high
            &&& t.batch_size == s.batch_size
            &&& t.timer_reset == s.timer_reset
        }),
{
}

/// When the batch timer fires, a node that leads the round and has not proposed in it takes what
/// waits for a batch at that round, however little; any other does nothing.
pub proof fn law_timer<Tx: MempoolTx>(s: BatcherState<Tx>)
    ensures
        s.my_id == s.leader && !s.proposed ==> s.proposes(BatcherEvent::Tick)
            == s.pool.next_payload() && s.after(BatcherEvent::Tick) == (BatcherState {
            pool: s.pool.made(s.round),
            proposed: s.pool.next_payload().len() > 0,
            ..s
        }),
        s.my_id != s.leader || s.proposed ==> s.proposes(BatcherEvent::Tick) == Seq::<
            Arc<Tx>,
        >::empty() && s.after(BatcherEvent::Tick) == s,
{
}

/// When a transaction comes in the pool gets it. If the node leads the round, has not proposed in
/// it, and enough bytes wait by then to fill a batch, one is taken; otherwise none is.
pub proof fn law_transaction<Tx: MempoolTx>(s: BatcherState<Tx>, tx: Arc<Tx>, size: usize)
    ensures
        ({
            let ev = BatcherEvent::Tx(Some((tx, size)));
            let pool = s.pool.add(tx, size);
            let full = total_size(pool.mineable) >= pool.batch_size;
            &&& s.my_id == s.leader && !s.proposed && full ==> s.proposes(ev) == pool.next_payload()
                && s.after(ev) == BatcherState {
                pool: pool.made(s.round),
                proposed: pool.next_payload().len() > 0,
                ..s
            }
            &&& s.my_id != s.leader || s.proposed || !full ==> s.proposes(ev) == Seq::<
                Arc<Tx>,
            >::empty() && s.after(ev) == BatcherState { pool, ..s }
        }),
{
}

/// A new round has its leader, nothing proposed in it, and the timer to be restarted. If this node
/// leads it and enough bytes wait to fill a batch, one is taken at once, at that round; otherwise
/// none is.
pub proof fn law_new_round<Tx: MempoolTx>(
    s: BatcherState<Tx>,
    leader: Replica,
    round: u64,
    sizes: Vec<usize>,
)
    ensures
        ({
            let ev = BatcherEvent::Consensus(
                Some((BatcherConsensusMsg::NewRound { leader, round }, sizes)),
            );
            let pool = PoolState { timer_reset: true, ..s.pool };
            let full = total_size(s.pool.mineable) >= s.pool.batch_size;
            &&& s.my_id == leader && full ==> s.proposes(ev) == s.pool.next_payload() && s.after(ev)
                == BatcherState {
                leader,
                round,
                pool: pool.made(round),
                proposed: s.pool.next_payload().len() > 0,
                ..s
            }
            &&& s.my_id != leader || !full ==> s.proposes(ev) == Seq::<Arc<Tx>>::empty() && s.after(
                ev,
            ) == BatcherState { leader, round, pool, proposed: false, ..s }
        }),
{
    let pool = PoolState { timer_reset: true, ..s.pool };
    assert(pool.next_payload() =~= s.pool.next_payload());
}

/// Proposals, commits and rollbacks go to the pool, and no batch is taken by them.
pub proof fn law_pool_hears_of_batches<Tx: MempoolTx>(
    s: BatcherState<Tx>,
    msg: BatcherConsensusMsg<Tx>,
    sizes: Vec<usize>,
)
    requires
        !(msg is NewRound),
    ensures
        ({
            let ev = BatcherEvent::Consensus(Some((msg, sizes)));
            &&& s.proposes(ev) == Seq::<Arc<Tx>>::empty()
            &&& s.after(ev) == BatcherState { pool: s.after(ev).pool, ..s }
            &&& msg matches BatcherConsensusMsg::Proposed { batch, round } ==> s.after(ev).pool
                == s.pool.admitted(batch.payload@, sizes@, round)
            &&& msg matches BatcherConsensusMsg::Committed { batch, round } ==> s.after(ev).pool
                == s.pool.committed(batch.payload@, round)
            &&& msg matches BatcherConsensusMsg::Rollback { rounds } ==> s.after(ev).pool
                == s.pool.rolled_back(rounds@)
        }),
{
}

/// A batcher ends when one of its channels does, with the error of that channel, and nothing is
/// proposed by that; no other event ends it. The events before the first such one are all it sees.
pub proof fn law_batcher_ends<Tx: MempoolTx>(
    s: BatcherState<Tx>,
    ev: BatcherEvent<Tx>,
    evs: Seq<BatcherEvent<Tx>>,
)
    ensures
        ending(ev) == Some(BatcherError::TxChannelClosed) <==> ev == BatcherEvent::<Tx>::Tx(None),
        ending(ev) == Some(BatcherError::ConsensusChannelClosed) <==> ev == BatcherEvent::<
            Tx,
        >::Consensus(None),
        ending(ev) == Some(BatcherError::BatchChannelClosed) <==> ev == BatcherEvent::<Tx>::Unsent,
        ending(ev) is Some ==> s.after(ev) == s && s.proposes(ev) == Seq::<Arc<Tx>>::empty(),
        lasting(evs) <= evs.len(),
        forall|i: int| 0 <= i < lasting(evs) ==> ending(#[trigger] evs[i]) is None,
        lasting(evs) < evs.len() ==> ending(evs[lasting(evs) as int]) is Some,
{
    lemma_lasting(evs);
}

proof fn lemma_lasting<Tx>(evs: Seq<BatcherEvent<Tx>>)
    ensures
        lasting(evs) <= evs.len(),
        forall|i: int| 0 <= i < lasting(evs) ==> ending(#[trigger] evs[i]) is None,
        lasting(evs) < evs.len() ==> ending(evs[lasting(evs) as int]) is Some,
    decreases evs.len(),
{
    if evs.len() > 0 {
        let a = evs.drop_last();
        lemma_lasting(a);
        assert(evs.last() == evs[evs.len() - 1]);
        assert forall|i: int| 0 <= i < lasting(evs) implies ending(#[trigger] evs[i]) is None by {
            if i < a.len() {
                assert(a[i] == evs[i]);
            }
        }
    }
}

/// The last address that was registered for a transaction counts. When a registered transaction
/// commits it is confirmed there, once, after whatever was confirmed before it, and the address is
/// connected to just before if it was not sent to yet; one that is not registered changes nothing.
pub proof fn law_confirmations_in_turn(
    s: RouterState,
    before: Seq<Digest>,
    tx: Digest,
    addr: PeerAddr,
)
    ensures
        s.registered(tx, addr) == (RouterState { pending: s.pending.insert(tx, addr), ..s }),
        s.committed(Seq::empty()) == s,
        s.confirms(Seq::empty()) == Seq::<RouterAction>::empty(),
        ({
            let t = s.committed(before);
            &&& !t.pending.contains_key(tx) ==> s.committed(before.push(tx)) == t && s.confirms(
                before.push(tx),
            ) == s.confirms(before)
            &&& t.pending.contains_key(tx) && t.pending[tx] == addr ==> s.committed(before.push(tx))
                == (RouterState { pending: t.pending.remove(tx), peers: t.peers.insert(addr) })
            &&& t.pending.contains_key(tx) && t.pending[tx] == addr && t.peers.contains(addr)
                ==> s.confirms(before.push(tx)) == s.confirms(before) + seq![
                RouterAction::Confirm(addr, tx),
            ]
            &&& t.pending.contains_key(tx) && t.pending[tx] == addr && !t.peers.contains(addr)
                ==> s.confirms(before.push(tx)) == s.confirms(before) + seq![
                RouterAction::Connect(addr),
                RouterAction::Confirm(addr, tx),
            ]
        }),
{
    assert(before.push(tx).drop_last() =~= before);
    let t = s.committed(before);
    if t.pending.contains_key(tx) && t.pending[tx] == addr {
        if t.peers.contains(addr) {
            assert(s.confirms(before.push(tx)) =~= s.confirms(before) + seq![
                RouterAction::Confirm(addr, tx),
            ]);
        } else {
            assert(s.confirms(before.push(tx)) =~= s.confirms(before) + seq![
                RouterAction::Connect(addr),
                RouterAction::Confirm(addr, tx),
            ]);
        }
    }
}

/// Each transaction of a client message is registered by the hash of its bytes, for the address
/// that the message names, and then handed on with the length of its bytes; one after another.
pub proof fn law_client_message_fans_out<Tx>(
    txs: Seq<Arc<Tx>>,
    one: Arc<Tx>,
    batch: Vec<Arc<Tx>>,
    reply_to: PeerAddr,
    wires: Seq<Vec<u8>>,
    i: int,
)
    requires
        0 <= i < txs.len(),
        txs.len() == wires.len(),
        wires[i]@.len() <= usize::MAX,
    ensures
        fan_out(txs, reply_to, wires).len() == txs.len() + wires.len(),
        fan_out(txs, reply_to, wires)[i + i] == ListenerAction::<Tx>::Register(
            hash_of(wires[i]@),
            reply_to,
        ),
        fan_out(txs, reply_to, wires)[i + i + 1] matches ListenerAction::Submit(tx, size) && tx
            == txs[i] && size == wires[i]@.len(),
        submitted(ClientMsg::NewTx { tx: one, reply_to }) == seq![one],
        submitted(ClientMsg::NewBatch { batch, reply_to }) == batch@,
        reply_address(ClientMsg::NewTx { tx: one, reply_to }) == reply_to,
        reply_address(ClientMsg::NewBatch { batch, reply_to }) == reply_to,
{
}

/// The events are seen one after another, and each batch that is taken goes out after those before
/// it; an event on which nothing is taken adds none.
pub proof fn law_events_in_turn<Tx: MempoolTx>(
    s: BatcherState<Tx>,
    before: Seq<BatcherEvent<Tx>>,
    ev: BatcherEvent<Tx>,
)
    ensures
        s.after_all(Seq::empty()) == s,
        s.all_proposed(Seq::empty()) == Seq::<Seq<Arc<Tx>>>::empty(),
        s.after_all(before.push(ev)) == s.after_all(before).after(ev),
        s.after_all(before).proposes(ev).len() > 0 ==> s.all_proposed(before.push(ev))
            == s.all_proposed(before).push(s.after_all(before).proposes(ev)),
        s.after_all(before).proposes(ev).len() == 0 ==> s.all_proposed(before.push(ev))
            == s.all_proposed(before),
{
    assert(before.push(ev).drop_last() =~= before);
}

} // verus!
