//! The round-robin batcher: it owns the keyed pool, and proposes a batch when this node leads
//! the round and either enough bytes wait or the batch timer fires.

use crate::mempool::batch::CachedBatch;
use crate::mempool::messages::BatcherConsensusMsg;
use crate::mempool::tx::{key_of, MempoolTx, Replica};
use crate::mempool::tx_pool::{
    law_every_pool_is_sound, law_next_batch, lemma_launch_keys_keeps, PoolOp, PoolState, Txpool,
};
use std::collections::VecDeque;
use std::sync::Arc;
use std::time::Duration;
use vstd::prelude::*;

verus! {

/// How a batcher is set up.
pub struct Parameters {
    pub my_id: Replica,
    pub initial_leader: Replica,
    pub batch_size: usize,
    pub batch_timeout: Duration,
}

impl Parameters {
    pub fn new(
        my_id: Replica,
        initial_leader: Replica,
        batch_size: usize,
        batch_timeout: Duration,
    ) -> (p: Self)
        ensures
            p == (Parameters { my_id, initial_leader, batch_size, batch_timeout }),
    {
        Parameters { my_id, initial_leader, batch_size, batch_timeout }
    }
}

/// What happens to a batcher.
pub enum BatcherEvent<Tx> {
    /// The batch timer fired.
    Tick,
    /// A client's transaction came in, with its size; or there will be no more.
    Tx(Option<(Arc<Tx>, usize)>),
    /// The consensus engine spoke, or there will be no more from it. For a proposal, the
    /// serialized size of each of its transactions comes along.
    Consensus(Option<(BatcherConsensusMsg<Tx>, Vec<usize>)>),
    /// The last batch could not be handed on: nobody takes batches any more.
    Unsent,
}

/// Why a batcher ends.
#[derive(Debug, Clone, Copy, PartialEq, Eq, Structural)]
pub enum BatcherError {
    TxChannelClosed,
    ConsensusChannelClosed,
    BatchChannelClosed,
}

/// What a batcher holds.
#[verifier::ext_equal]
pub struct BatcherState<Tx> {
    pub my_id: Replica,
    pub leader: Replica,
    pub round: u64,
    /// Whether a batch was proposed in this round.
    pub proposed: bool,
    pub pool: PoolState<Tx>,
}

impl<Tx: MempoolTx> BatcherState<Tx> {
    /// Whether this node leads the round and has not proposed in it.
    pub open spec fn can_propose(self) -> bool {
        self.my_id == self.leader && !self.proposed
    }

    /// Whether enough bytes wait to fill a batch.
    pub open spec fn ready(self) -> bool {
        self.pool.bytes() >= self.pool.batch_size
    }

    /// The batcher after it took what the pool has for a batch. If that is nothing, it has not
    /// proposed.
    pub open spec fn flushed(self) -> Self {
        BatcherState {
            proposed: self.proposed || self.pool.next_payload().len() > 0,
            pool: self.pool.made(self.round),
            ..self
        }
    }

    /// The batcher after an event, before it considers to propose.
    pub open spec fn noted(self, ev: BatcherEvent<Tx>) -> Self {
        match ev {
            BatcherEvent::Tick => self,
            BatcherEvent::Unsent => self,
            BatcherEvent::Tx(None) => self,
            BatcherEvent::Tx(Some((tx, size))) => BatcherState {
                pool: self.pool.add(tx, size),
                ..self
            },
            BatcherEvent::Consensus(None) => self,
            BatcherEvent::Consensus(Some((msg, sizes))) => match msg {
                BatcherConsensusMsg::NewRound { leader, round } => BatcherState {
                    leader,
                    round,
                    proposed: false,
                    pool: PoolState { timer_reset: true, ..self.pool },
                    ..self
                },
                BatcherConsensusMsg::Proposed { batch, round } => BatcherState {
                    pool: self.pool.admitted(batch.payload@, sizes@, round),
                    ..self
                },
                BatcherConsensusMsg::Committed { batch, round } => BatcherState {
                    pool: self.pool.committed(batch.payload@, round),
                    ..self
                },
                BatcherConsensusMsg::Rollback { rounds } => BatcherState {
                    pool: self.pool.rolled_back(rounds@),
                    ..self
                },
            },
        }
    }

    /// Whether the batcher takes a batch on an event, having noted it: on the timer in any
    /// case, on a transaction or a new round once enough bytes wait.
    pub open spec fn flushes(self, ev: BatcherEvent<Tx>) -> bool {
        self.can_propose() && match ev {
            BatcherEvent::Tick => true,
            BatcherEvent::Unsent => false,
            BatcherEvent::Tx(tx) => tx is Some && self.ready(),
            BatcherEvent::Consensus(_) => new_round(ev) is Some && self.ready(),
        }
    }

    /// The batcher after an event.
    pub open spec fn after(self, ev: BatcherEvent<Tx>) -> Self {
        let s = self.noted(ev);
        if s.flushes(ev) {
            s.flushed()
        } else {
            s
        }
    }

    /// The transactions that are proposed on an event.
    pub open spec fn proposes(self, ev: BatcherEvent<Tx>) -> Seq<Arc<Tx>> {
        let s = self.noted(ev);
        if s.flushes(ev) {
            s.pool.next_payload()
        } else {
            Seq::empty()
        }
    }

    /// The batcher after all of these events, in this order.
    pub open spec fn after_all(self, evs: Seq<BatcherEvent<Tx>>) -> Self
        decreases evs.len(),
    {
        if evs.len() == 0 {
            self
        } else {
            self.after_all(evs.drop_last()).after(evs.last())
        }
    }

    /// The transactions that are proposed on event `i` of these.
    pub open spec fn proposes_at(self, evs: Seq<BatcherEvent<Tx>>, i: int) -> Seq<Arc<Tx>> {
        self.after_all(evs.take(i)).proposes(evs[i])
    }

    /// The batches that are proposed on all of these events, in this order.
    pub open spec fn all_proposed(self, evs: Seq<BatcherEvent<Tx>>) -> Seq<Seq<Arc<Tx>>>
        decreases evs.len(),
    {
        if evs.len() == 0 {
            Seq::empty()
        } else {
            let before = self.all_proposed(evs.drop_last());
            let payload = self.after_all(evs.drop_last()).proposes(evs.last());
            if payload.len() > 0 {
                before.push(payload)
            } else {
                before
            }
        }
    }

    /// Whether each of these events is one that the pool can count its bytes after.
    pub open spec fn fits_all(self, evs: Seq<BatcherEvent<Tx>>) -> bool {
        forall|i: int|
            0 <= i < evs.len() ==> self.after_all(evs.take(i)).fits(#[trigger] evs[i])
    }

    /// Whether the pool can count its bytes after the event, and whether sizes came along for
    /// every transaction of a proposal.
    pub open spec fn fits(self, ev: BatcherEvent<Tx>) -> bool {
        &&& self.noted(ev).pool.bytes() <= usize::MAX
        &&& ev matches BatcherEvent::Consensus(Some((msg, sizes)))
            && msg matches BatcherConsensusMsg::Proposed { batch, round } ==> sizes@.len()
            == batch.payload@.len()
    }
}

/// The error that an event ends the batcher with.
pub open spec fn ending<Tx>(ev: BatcherEvent<Tx>) -> Option<BatcherError> {
    match ev {
        BatcherEvent::Tx(None) => Some(BatcherError::TxChannelClosed),
        BatcherEvent::Consensus(None) => Some(BatcherError::ConsensusChannelClosed),
        BatcherEvent::Unsent => Some(BatcherError::BatchChannelClosed),
        _ => None,
    }
}

/// How many of these events come before the first that ends the batcher.
pub open spec fn lasting<Tx>(evs: Seq<BatcherEvent<Tx>>) -> nat
    decreases evs.len(),
{
    if evs.len() == 0 {
        0
    } else if lasting(evs.drop_last()) < evs.len() - 1 || ending(evs.last()) is Some {
        lasting(evs.drop_last())
    } else {
        evs.len()
    }
}

/// Whether these are batches with these transactions, of which no hash is known yet.
pub open spec fn are_batches<Tx>(
    batches: Seq<Arc<CachedBatch<Tx>>>,
    payloads: Seq<Seq<Arc<Tx>>>,
) -> bool {
    &&& batches.len() == payloads.len()
    &&& forall|i: int|
        0 <= i < batches.len() ==> {
            let b = #[trigger] batches[i];
            b.payload@ == payloads[i] && b.hash is None && b.tx_hashes is None
        }
}

/// The leader and the round that an event begins, if it begins one.
pub open spec fn new_round<Tx>(ev: BatcherEvent<Tx>) -> Option<(Replica, u64)> {
    match ev {
        BatcherEvent::Consensus(Some((BatcherConsensusMsg::NewRound { leader, round }, _))) => Some(
            (leader, round),
        ),
        _ => None,
    }
}

/// The batcher of the keyed mempool.
pub struct RRBatcher<Tx> {
    my_id: Replica,
    current_leader: Replica,
    current_round: u64,
    proposed: bool,
    pool: Txpool<Tx>,
}

impl<Tx: MempoolTx> View for RRBatcher<Tx> {
    type V = BatcherState<Tx>;

    closed spec fn view(&self) -> BatcherState<Tx> {
        BatcherState {
            my_id: self.my_id,
            leader: self.current_leader,
            round: self.current_round,
            proposed: self.proposed,
            pool: self.pool@,
        }
    }
}

impl<Tx: MempoolTx> RRBatcher<Tx> {
    /// The pool keeps its invariant.
    pub closed spec fn wf(&self) -> bool {
        self.pool.wf()
    }

    /// A batcher in round zero, with nothing proposed and an empty pool.
    pub fn new(params: &Parameters) -> (b: Self)
        ensures
            b.wf(),
            b@ == (BatcherState::<Tx> {
                my_id: params.my_id,
                leader: params.initial_leader,
                round: 0,
                proposed: false,
                pool: PoolState {
                    mineable: Map::empty(),
                    inflight: Map::empty(),
                    by_round: Map::empty(),
                    high: Map::empty(),
                    batch_size: params.batch_size,
                    timer_reset: false,
                },
            }),
    {
        RRBatcher {
            my_id: params.my_id,
            current_leader: params.initial_leader,
            current_round: 0,
            proposed: false,
            pool: Txpool::new(params.batch_size),
        }
    }

    /// Whether this node leads the round and has not proposed in it. Only then does the batch
    /// timer count.
    pub fn can_propose(&self) -> (r: bool)
        ensures
            r == self@.can_propose(),
    {
        self.my_id == self.current_leader && !self.proposed
    }

    /// The pool.
    pub fn pool(&self) -> (p: &Txpool<Tx>)
        requires
            self.wf(),
        ensures
            p@ == self@.pool,
            p.wf(),
    {
        &self.pool
    }

    /// Whether the batch timer is to be restarted; the request is then taken as met.
    pub fn take_timer_reset(&mut self) -> (due: bool)
        ensures
            due == old(self)@.pool.timer_reset,
            final(self)@ == (BatcherState {
                pool: PoolState { timer_reset: false, ..old(self)@.pool },
                ..old(self)@
            }),
            old(self).wf() ==> final(self).wf(),
    {
        self.pool.take_timer_reset()
    }

    /// Takes what the pool has for a batch in this round.
    fn flush(&mut self) -> (r: Option<Arc<CachedBatch<Tx>>>)
        requires
            old(self).wf(),
        ensures
            final(self).wf(),
            final(self)@ == old(self)@.flushed(),
            r is Some == (old(self)@.pool.next_payload().len() > 0),
            r matches Some(b) ==> b.payload@ == old(self)@.pool.next_payload() && b.hash is None
                && b.tx_hashes is None,
    {
        let payload = self.pool.make_batch(self.current_round);
        if payload.len() == 0 {
            None
        } else {
            self.proposed = true;
            Some(Arc::new(CachedBatch::new(payload)))
        }
    }

    /// Handles one event. The batch that is handed back, if any, is this node's proposal for
    /// the round; it holds at least one transaction.
    pub fn step(&mut self, ev: BatcherEvent<Tx>) -> (r: Result<
        Option<Arc<CachedBatch<Tx>>>,
        BatcherError,
    >)
        requires
            old(self).wf(),
            old(self)@.fits(ev),
        ensures
            final(self).wf(),
            final(self)@ == old(self)@.after(ev),
            match r {
                Err(e) => ending(ev) == Some(e),
                Ok(None) => ending(ev) is None && old(self)@.proposes(ev).len() == 0,
                Ok(Some(b)) => ending(ev) is None && old(self)@.proposes(ev).len() > 0
                    && b.payload@ == old(self)@.proposes(ev) && b.hash is None
                    && b.tx_hashes is None,
            },
    {
        match ev {
            BatcherEvent::Tick => {
                if self.can_propose() {
                    Ok(self.flush())
                } else {
                    Ok(None)
                }
            },
            BatcherEvent::Unsent => Err(BatcherError::BatchChannelClosed),
            BatcherEvent::Tx(None) => Err(BatcherError::TxChannelClosed),
            BatcherEvent::Tx(Some((tx, size))) => {
                self.pool.add_tx(tx, size);
                Ok(self.try_propose())
            },
            BatcherEvent::Consensus(None) => Err(BatcherError::ConsensusChannelClosed),
            BatcherEvent::Consensus(Some((msg, sizes))) => {
                match msg {
                    BatcherConsensusMsg::NewRound { leader, round } => {
                        self.current_leader = leader;
                        self.current_round = round;
                        self.proposed = false;
                        self.pool.reset_timer();
                        Ok(self.try_propose())
                    },
                    BatcherConsensusMsg::Proposed { batch, round } => {
                        self.pool.admit_proposal(&*batch, &sizes, round);
                        Ok(None)
                    },
                    BatcherConsensusMsg::Committed { batch, round } => {
                        self.pool.commit(&*batch, round);
                        Ok(None)
                    },
                    BatcherConsensusMsg::Rollback { rounds } => {
                        self.pool.rollback(rounds.as_slice());
                        Ok(None)
                    },
                }
            },
        }
    }

    /// Handles these events in turn, up to the first that ends the batcher. Hands back the
    /// batches that are this node's proposals, in order, and why the batcher ended if it did.
    pub fn run(&mut self, evs: VecDeque<BatcherEvent<Tx>>) -> (r: (
        Vec<Arc<CachedBatch<Tx>>>,
        Result<(), BatcherError>,
    ))
        requires
            old(self).wf(),
            old(self)@.fits_all(evs@),
        ensures
            final(self).wf(),
            final(self)@ == old(self)@.after_all(evs@.take(lasting(evs@) as int)),
            are_batches(r.0@, old(self)@.all_proposed(evs@.take(lasting(evs@) as int))),
            forall|i: int| 0 <= i < r.0@.len() ==> (#[trigger] r.0@[i]).payload@.len() > 0,
            match r.1 {
                Ok(()) => lasting(evs@) == evs@.len(),
                Err(e) => lasting(evs@) < evs@.len() && ending(evs@[lasting(evs@) as int]) == Some(
                    e,
                ),
            },
    {
        let ghost s = self@;
        let ghost all = evs@;
        let n: usize = evs.len();
        let mut rest = evs;
        let mut batches: Vec<Arc<CachedBatch<Tx>>> = Vec::new();
        let mut i: usize = 0;
        assert(all.take(0) =~= Seq::empty());
        while i < n
            invariant
                i <= n,
                n == all.len(),
                all == evs@,
                rest@ == all.skip(i as int),
                s == old(self)@,
                s.fits_all(all),
                self.wf(),
                self@ == s.after_all(all.take(i as int)),
                are_batches(batches@, s.all_proposed(all.take(i as int))),
                forall|k: int|
                    0 <= k < batches@.len() ==> (#[trigger] batches@[k]).payload@.len() > 0,
                lasting(all.take(i as int)) == i,
            decreases n - i,
        {
            proof {
                assert(all.take(i + 1).drop_last() =~= all.take(i as int));
                assert(all.take(i + 1).last() == all[i as int]);
                assert(s.after_all(all.take(i as int)).fits(all[i as int]));
            }
            if let Some(ev) = rest.pop_front() {
                match self.step(ev) {
                    Err(e) => {
                        proof {
                            lemma_lasting_stops(all, i as int);
                        }
                        return (batches, Err(e));
                    },
                    Ok(None) => {},
                    Ok(Some(b)) => {
                        batches.push(b);
                    },
                }
            }
            i = i + 1;
        }
        assert(all.take(i as int) =~= all);
        (batches, Ok(()))
    }

    /// Takes a batch if this node may propose and enough bytes wait.
    fn try_propose(&mut self) -> (r: Option<Arc<CachedBatch<Tx>>>)
        requires
            old(self).wf(),
        ensures
            final(self).wf(),
            final(self)@ == (if old(self)@.can_propose() && old(self)@.ready() {
                old(self)@.flushed()
            } else {
                old(self)@
            }),
            r is Some == (old(self)@.can_propose() && old(self)@.ready()
                && old(self)@.pool.next_payload().len() > 0),
            r matches Some(b) ==> b.payload@ == old(self)@.pool.next_payload() && b.hash is None
                && b.tx_hashes is None,
    {
        if self.can_propose() && self.pool.ready() {
            self.flush()
        } else {
            None
        }
    }
}

impl<Tx: MempoolTx> RRBatcher<Tx> {
    /// The pool of a batcher keeps its invariant, and its mineable bytes can be counted.
    pub proof fn lemma_wf(&self)
        requires
            self.wf(),
        ensures
            self@.pool.inv(),
            self@.pool.bytes() <= usize::MAX,
    {
        self.pool.lemma_wf();
    }
}

/// Whatever happens, in any order: a batch is proposed by a node that leads the round, which is the
/// one of the last new round; it is not empty; its transactions are in flight at that round; no
/// other batch is proposed in the round, neither before nor after it; and nothing is proposed on
/// what ends the batcher.
pub proof fn law_any_interleaving<Tx: MempoolTx>(
    s: BatcherState<Tx>,
    evs: Seq<BatcherEvent<Tx>>,
    i: int,
    last: Option<int>,
)
    requires
        s.pool.inv(),
        0 <= i < evs.len(),
        s.proposes_at(evs, i).len() > 0,
        last matches Some(r) ==> 0 <= r <= i && new_round(evs[r]) is Some,
        forall|k: int|
            0 <= k <= i && (last matches Some(r) ==> r < k) ==> new_round(#[trigger] evs[k]) is None,
    ensures
        ending(evs[i]) is None,
        ({
            let t = s.after_all(evs.take(i + 1));
            &&& t.my_id == s.my_id
            &&& t.leader == s.my_id
            &&& (t.leader, t.round) == (match last {
                Some(r) => new_round(evs[r])->0,
                None => (s.leader, s.round),
            })
            &&& forall|n: int|
                0 <= n < s.proposes_at(evs, i).len() ==> {
                    let k = #[trigger] key_of(&*s.proposes_at(evs, i)[n]);
                    t.pool.inflight.contains_key(k) && t.pool.inflight[k].round == t.round
                }
        }),
        forall|j: int|
            i < j < evs.len() && (forall|k: int| i < k <= j ==> new_round(#[trigger] evs[k]) is None)
                ==> #[trigger] s.proposes_at(evs, j).len() == 0,
        forall|j: int|
            0 <= j < i && (forall|k: int| j < k <= i ==> new_round(#[trigger] evs[k]) is None)
                ==> #[trigger] s.proposes_at(evs, j).len() == 0,
{
    law_proposal_flies_at_its_round(s, evs, i);
    let a = evs.take(i + 1);
    assert forall|k: int| 0 <= k < a.len() implies #[trigger] a[k] == evs[k] by {}
    assert forall|k: int|
        0 <= k < a.len() && (last matches Some(r) ==> r < k) implies new_round(
        #[trigger] a[k],
    ) is None by {
        assert(new_round(evs[k]) is None);
    }
    law_last_round_counts(s, a, last);
    assert forall|j: int|
        i < j < evs.len() && (forall|k: int|
            i < k <= j ==> new_round(#[trigger] evs[k]) is None) implies #[trigger] s.proposes_at(
        evs,
        j,
    ).len() == 0 by {
        law_one_proposal_per_round(s, evs, i, j);
    }
    assert forall|j: int|
        0 <= j < i && (forall|k: int|
            j < k <= i ==> new_round(#[trigger] evs[k]) is None) implies #[trigger] s.proposes_at(
        evs,
        j,
    ).len() == 0 by {
        if s.proposes_at(evs, j).len() > 0 {
            law_one_proposal_per_round(s, evs, j, i);
        }
    }
}

/// The events last until the first that ends the batcher.
proof fn lemma_lasting_stops<Tx>(evs: Seq<BatcherEvent<Tx>>, i: int)
    requires
        0 <= i < evs.len(),
        lasting(evs.take(i)) == i,
        ending(evs[i]) is Some,
    ensures
        lasting(evs) == i,
    decreases evs.len(),
{
    let a = evs.drop_last();
    if i == a.len() {
        assert(evs.take(i) =~= a);
    } else {
        assert(a.take(i) =~= evs.take(i));
        lemma_lasting_stops(a, i);
    }
}

/// A node proposes at most once in a round: whatever happens, between two new rounds, before the
/// first one and after the last one it proposes at most one batch.
pub proof fn law_one_proposal_per_round<Tx: MempoolTx>(
    s: BatcherState<Tx>,
    evs: Seq<BatcherEvent<Tx>>,
    i: int,
    j: int,
)
    requires
        0 <= i < j < evs.len(),
        s.proposes_at(evs, i).len() > 0,
        forall|k: int| i < k <= j ==> new_round(#[trigger] evs[k]) is None,
    ensures
        s.proposes_at(evs, j).len() == 0,
        s.after_all(evs.take(j + 1)).proposed,
    decreases j,
{
    let before = s.after_all(evs.take(j));
    assert(evs.take(j + 1).drop_last() =~= evs.take(j));
    assert(before.proposed) by {
        if i + 1 < j {
            law_one_proposal_per_round(s, evs, i, j - 1);
        } else {
            assert(evs.take(j).drop_last() =~= evs.take(i));
            assert(before == s.after_all(evs.take(i)).after(evs[i]));
        }
    }
    assert(new_round(evs[j]) is None);
}

/// A batcher goes by the last new round that it heard of: after any events its leader and its
/// round are the ones of that new round, and those it had if there was none.
pub proof fn law_last_round_counts<Tx: MempoolTx>(
    s: BatcherState<Tx>,
    evs: Seq<BatcherEvent<Tx>>,
    last: Option<int>,
)
    requires
        last matches Some(i) ==> 0 <= i < evs.len() && new_round(evs[i]) is Some,
        forall|k: int|
            0 <= k < evs.len() && (last matches Some(i) ==> i < k) ==> new_round(
                #[trigger] evs[k],
            ) is None,
    ensures
        s.after_all(evs).my_id == s.my_id,
        (s.after_all(evs).leader, s.after_all(evs).round) == (match last {
            Some(i) => new_round(evs[i])->0,
            None => (s.leader, s.round),
        }),
    decreases evs.len(),
{
    if evs.len() > 0 {
        let a = evs.drop_last();
        let n = evs.len() - 1;
        assert(evs[n] == evs.last());
        assert forall|k: int| 0 <= k < a.len() implies a[k] == #[trigger] evs[k] by {}
        if last == Some(n) {
            lemma_same_node(s, a);
        } else {
            assert forall|k: int|
                0 <= k < a.len() && (last matches Some(i) ==> i < k) implies new_round(
                #[trigger] a[k],
            ) is None by {
                assert(new_round(evs[k]) is None);
            }
            law_last_round_counts(s, a, last);
        }
    }
}

/// A batcher stays on its node.
proof fn lemma_same_node<Tx: MempoolTx>(s: BatcherState<Tx>, evs: Seq<BatcherEvent<Tx>>)
    ensures
        s.after_all(evs).my_id == s.my_id,
    decreases evs.len(),
{
    if evs.len() > 0 {
        lemma_same_node(s, evs.drop_last());
    }
}

/// Whatever happens, a node proposes in a round that it leads and has not proposed in, and from
/// then on the transactions of the batch are in flight at that round.
pub proof fn law_proposal_flies_at_its_round<Tx: MempoolTx>(
    s: BatcherState<Tx>,
    evs: Seq<BatcherEvent<Tx>>,
    i: int,
)
    requires
        s.pool.inv(),
        0 <= i < evs.len(),
        s.proposes_at(evs, i).len() > 0,
    ensures
        ({
            let t = s.after_all(evs.take(i + 1));
            &&& t.my_id == t.leader
            &&& t.proposed
            &&& forall|n: int|
                0 <= n < s.proposes_at(evs, i).len() ==> {
                    let k = #[trigger] key_of(&*s.proposes_at(evs, i)[n]);
                    t.pool.inflight.contains_key(k) && t.pool.inflight[k].round == t.round
                }
        }),
{
    assert(evs.take(i + 1).drop_last() =~= evs.take(i));
    let u = s.after_all(evs.take(i));
    lemma_pool_is_sound(s, evs.take(i));
    let v = u.noted(evs[i]);
    lemma_noted_is_sound(u, evs[i]);
    let t = s.after_all(evs.take(i + 1));
    assert(t == v.flushed());
    let keys = v.pool.next_batch();
    law_next_batch(v.pool);
    lemma_launch_keys_keeps(v.pool.open_round(v.round), keys, v.round);
    assert forall|n: int| 0 <= n < v.pool.next_payload().len() implies {
        let k = #[trigger] key_of(&*v.pool.next_payload()[n]);
        t.pool.inflight.contains_key(k) && t.pool.inflight[k].round == t.round
    } by {
        assert(v.pool.mineable.contains_key(keys[n]));
        assert(key_of(&*v.pool.next_payload()[n]) == keys[n]);
        assert(keys.to_set().contains(keys[n]));
        assert(t.pool.inflight.dom().contains(keys[n]));
        assert(t.pool.inflight[keys[n]].round == v.round);
    }
}

/// The pool of a batcher keeps its invariant while an event is noted.
proof fn lemma_noted_is_sound<Tx: MempoolTx>(s: BatcherState<Tx>, ev: BatcherEvent<Tx>)
    requires
        s.pool.inv(),
    ensures
        s.noted(ev).pool.inv(),
{
    let ops = match ev {
        BatcherEvent::Tx(Some((tx, size))) => seq![PoolOp::Add { tx, size }],
        BatcherEvent::Consensus(Some((msg, sizes))) => match msg {
            BatcherConsensusMsg::NewRound { leader, round } => seq![PoolOp::Timer { due: true }],
            BatcherConsensusMsg::Proposed { batch, round } => seq![
                PoolOp::Admit { txs: batch.payload@, sizes: sizes@, round },
            ],
            BatcherConsensusMsg::Committed { batch, round } => seq![
                PoolOp::Commit { txs: batch.payload@, round },
            ],
            BatcherConsensusMsg::Rollback { rounds } => seq![PoolOp::Rollback { rounds: rounds@ }],
        },
        _ => Seq::empty(),
    };
    law_every_pool_is_sound(s.pool, ops);
    reveal_with_fuel(PoolState::did_all, 2);
    if ops.len() > 0 {
        assert(ops.drop_last() =~= Seq::empty());
    }
}

/// The pool of a batcher keeps its invariant whatever happens.
proof fn lemma_pool_is_sound<Tx: MempoolTx>(s: BatcherState<Tx>, evs: Seq<BatcherEvent<Tx>>)
    requires
        s.pool.inv(),
    ensures
        s.after_all(evs).pool.inv(),
    decreases evs.len(),
{
    if evs.len() > 0 {
        let u = s.after_all(evs.drop_last());
        lemma_pool_is_sound(s, evs.drop_last());
        lemma_noted_is_sound(u, evs.last());
        let v = u.noted(evs.last());
        let ops = seq![PoolOp::Make { round: v.round }];
        law_every_pool_is_sound(v.pool, ops);
        reveal_with_fuel(PoolState::did_all, 2);
        assert(ops.drop_last() =~= Seq::empty());
    }
}

/// A node that does not lead the round proposes nothing.
pub proof fn law_only_leader_proposes<Tx: MempoolTx>(s: BatcherState<Tx>, ev: BatcherEvent<Tx>)
    requires
        s.noted(ev).my_id != s.noted(ev).leader,
    ensures
        s.proposes(ev).len() == 0,
        s.after(ev) == s.noted(ev),
{
}

} // verus!
