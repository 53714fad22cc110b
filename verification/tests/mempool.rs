use libapollo::digest::Digest;
use libapollo::handlers::Handlers;
use libapollo::hash::do_hash;
use libapollo::mempool::batch::CachedBatch;
use libapollo::mempool::batcher::Batcher;
use libapollo::mempool::cache::{BatchCache, DEFAULT_CACHE_CAP};
use libapollo::mempool::client_listener::{on_client_msg, ListenerAction};
use libapollo::mempool::confirmation_router::{ConfirmationRouter, RouterAction};
use libapollo::mempool::messages::{BatcherConsensusMsg, ClientMsg, PeerAddr};
use libapollo::mempool::processor::{finish_read, persist_batch, read_batch, BatchRead, Processor};
use libapollo::mempool::receiver::{Incoming, IntakeStep, Receiver};
use libapollo::mempool::rr_batcher::{BatcherError, BatcherEvent, Parameters, RRBatcher};
use libapollo::mempool::sealer::{CountSealer, Sealer};
use libapollo::mempool::tx::{ClientId, MempoolTx};
use libapollo::mempool::tx_pool::Txpool;
use std::collections::VecDeque;
use std::sync::Arc;
use std::time::Duration;

#[derive(Debug, Clone, PartialEq)]
struct TestTx {
    client: ClientId,
    nonce: u64,
    payload: u8,
}

impl TestTx {
    fn new(client: ClientId, nonce: u64) -> Arc<Self> {
        Arc::new(Self {
            client,
            nonce,
            payload: 0,
        })
    }
}

impl MempoolTx for TestTx {
    fn spec_client_id(&self) -> ClientId {
        self.client
    }
    fn spec_nonce(&self) -> u64 {
        self.nonce
    }
    fn client_id(&self) -> ClientId {
        self.client
    }
    fn nonce(&self) -> u64 {
        self.nonce
    }
}

fn pool() -> Txpool<TestTx> {
    Txpool::new(1024 * 1024)
}

fn batch(txs: Vec<Arc<TestTx>>) -> CachedBatch<TestTx> {
    CachedBatch::new(txs)
}

/// The serialized sizes of the transactions of a batch: a client, a nonce and one byte.
fn sizes(b: &CachedBatch<TestTx>) -> Vec<usize> {
    b.payload.iter().map(|_| 11).collect()
}

fn see_proposal(p: &mut Txpool<TestTx>, txs: Vec<Arc<TestTx>>, round: u64) {
    let b = batch(txs);
    let s = sizes(&b);
    p.admit_proposal(&b, &s, round);
}

#[test]
fn trace1_common_case() {
    let mut p = pool();
    let tx = TestTx::new(1, 5);
    p.add_tx(tx.clone(), 10);
    assert!(p.mineable((1, 5)).is_some());
    assert_eq!(p.mineable_bytes(), 10);

    see_proposal(&mut p, vec![tx.clone()], 1);
    assert!(p.mineable((1, 5)).is_none());
    assert!(p.inflight((1, 5)).is_some());
    assert_eq!(p.inflight_at(1).unwrap().len(), 1);

    p.commit(&batch(vec![tx.clone()]), 1);
    assert!(p.inflight((1, 5)).is_none());
    assert_eq!(p.high_committed(1), 5);
}

#[test]
fn trace2_proposal_before_client() {
    let mut p = pool();
    let tx = TestTx::new(1, 5);
    see_proposal(&mut p, vec![tx.clone()], 1);
    assert!(p.mineable((1, 5)).is_none());
    assert!(p.inflight((1, 5)).is_some());

    p.add_tx(tx.clone(), 10);
    assert!(p.mineable((1, 5)).is_none());
    assert!(p.inflight((1, 5)).is_some());
    assert_eq!(p.mineable_bytes(), 0);
}

#[test]
fn trace3_late_client_after_commit() {
    let mut p = pool();
    let tx = TestTx::new(1, 5);

    see_proposal(&mut p, vec![tx.clone()], 1);
    p.commit(&batch(vec![tx.clone()]), 1);
    assert_eq!(p.high_committed(1), 5);

    p.add_tx(tx.clone(), 10);
    assert!(p.mineable((1, 5)).is_none());
    assert_eq!(p.mineable_bytes(), 0);
}

#[test]
fn trace4_chain_switch_rollback() {
    let mut p = pool();
    let tx = TestTx::new(1, 5);
    p.add_tx(tx.clone(), 10);

    let _payload = p.make_batch(1);
    assert!(p.inflight((1, 5)).is_some());
    assert!(p.mineable((1, 5)).is_none());

    p.rollback(&[1]);
    assert!(p.mineable((1, 5)).is_some());
    assert!(p.inflight((1, 5)).is_none());
    assert_eq!(p.mineable_bytes(), 10);
}

#[test]
fn trace5_different_proposal_at_same_round() {
    let mut p = pool();
    let tx5 = TestTx::new(1, 5);
    let tx7 = TestTx::new(1, 7);

    p.add_tx(tx5.clone(), 10);
    see_proposal(&mut p, vec![tx5.clone()], 2);
    assert!(p.inflight((1, 5)).is_some());

    p.commit(&batch(vec![tx7.clone()]), 2);
    assert_eq!(p.high_committed(1), 7);
    assert!(p.mineable((1, 5)).is_none());

    p.rollback(&[2]);
    assert!(p.inflight((1, 5)).is_none());
    assert!(p.mineable((1, 5)).is_none());
}

#[test]
fn trace6_byzantine_replay() {
    let mut p = pool();
    let tx10 = TestTx::new(1, 10);
    p.add_tx(tx10.clone(), 10);
    see_proposal(&mut p, vec![tx10.clone()], 1);
    p.commit(&batch(vec![tx10.clone()]), 1);
    assert_eq!(p.high_committed(1), 10);

    let tx3 = TestTx::new(1, 3);
    p.add_tx(tx3, 10);
    assert!(p.mineable((1, 3)).is_none());
    assert_eq!(p.mineable_bytes(), 0);
}

#[test]
fn trace8_proposer_loopback() {
    let mut p = pool();
    let tx = TestTx::new(1, 5);
    p.add_tx(tx.clone(), 10);

    let payload = p.make_batch(1);
    assert_eq!(payload.len(), 1);
    assert!(p.inflight((1, 5)).is_some());

    see_proposal(&mut p, payload, 1);
    assert!(p.inflight((1, 5)).is_some());
    assert!(p.mineable((1, 5)).is_none());
    assert_eq!(p.inflight_at(1).unwrap().len(), 1);
}

#[test]
fn trace9_equivocation_last_write_wins() {
    let mut p = pool();
    let tx_a = Arc::new(TestTx {
        client: 1,
        nonce: 5,
        payload: 0xAA,
    });
    let tx_b = Arc::new(TestTx {
        client: 1,
        nonce: 5,
        payload: 0xBB,
    });

    p.add_tx(tx_a.clone(), 10);
    assert_eq!(p.mineable_bytes(), 10);

    p.add_tx(tx_b.clone(), 10);
    assert_eq!(p.mineable_len(), 1);
    assert_eq!(p.mineable_bytes(), 10);

    let stored = p.mineable((1, 5)).unwrap().0;
    assert_eq!(stored.payload, 0xBB);
}

#[test]
fn gc_sweeps_stale_mineable() {
    let mut p = pool();
    for n in 1u64..=3 {
        p.add_tx(TestTx::new(1, n), 10);
    }
    assert_eq!(p.mineable_len(), 3);
    assert_eq!(p.mineable_bytes(), 30);

    p.commit(&batch(vec![TestTx::new(1, 3)]), 1);
    assert!(p.mineable((1, 1)).is_none());
    assert!(p.mineable((1, 2)).is_none());
    assert!(p.mineable((1, 3)).is_none());
    assert_eq!(p.mineable_bytes(), 0);
    assert_eq!(p.high_committed(1), 3);
}

#[test]
fn rollback_subsumed_orphan_dropped() {
    let tx5 = TestTx::new(1, 5);
    let tx7 = TestTx::new(1, 7);

    let mut p2 = pool();
    p2.add_tx(tx5.clone(), 10);
    see_proposal(&mut p2, vec![tx5.clone()], 2);
    p2.commit(&batch(vec![tx7.clone()]), 3);
    p2.rollback(&[2]);
    assert!(p2.mineable((1, 5)).is_none());
    assert!(p2.inflight((1, 5)).is_none());
}

#[test]
fn batch_takes_first_keys_until_full() {
    let mut p: Txpool<TestTx> = Txpool::new(25);
    p.add_tx(TestTx::new(2, 1), 10);
    p.add_tx(TestTx::new(1, 9), 10);
    p.add_tx(TestTx::new(1, 4), 10);
    p.add_tx(TestTx::new(3, 1), 10);
    assert!(p.ready());
    let payload = p.make_batch(7);
    let keys: Vec<(u16, u64)> = payload.iter().map(|t| (t.client, t.nonce)).collect();
    assert_eq!(keys, vec![(1, 4), (1, 9)]);
    assert_eq!(p.mineable_bytes(), 20);
    assert_eq!(p.inflight((1, 4)), Some((7, 10)));
    assert!(p.take_timer_reset());
    assert!(!p.take_timer_reset());
    assert!(p.key_sets_disjoint());
}

#[test]
fn ready_with_a_full_batch() {
    let mut p: Txpool<TestTx> = Txpool::new(20);
    p.add_tx(TestTx::new(1, 1), 19);
    assert!(!p.ready());
    p.add_tx(TestTx::new(1, 2), 1);
    assert!(p.ready());
    assert_eq!(p.make_batch(1).len(), 2);
}

#[test]
fn a_batch_is_never_too_large() {
    let mut p: Txpool<TestTx> = Txpool::new(15);
    p.add_tx(TestTx::new(1, 1), 10);
    p.add_tx(TestTx::new(1, 2), 10);
    assert!(p.ready());
    assert_eq!(p.make_batch(1).len(), 1);
    assert_eq!(p.mineable_bytes(), 10);
    assert_eq!(p.inflight((1, 1)), Some((1, 10)));

    // One that is larger than a whole batch is passed over, and holds nothing up.
    let mut q: Txpool<TestTx> = Txpool::new(15);
    q.add_tx(TestTx::new(1, 1), 16);
    q.add_tx(TestTx::new(1, 2), 1);
    assert!(q.ready());
    let payload = q.make_batch(1);
    assert_eq!(payload.len(), 1);
    assert_eq!(payload[0].nonce, 2);
    assert_eq!(q.mineable_bytes(), 16);
    assert!(q.make_batch(2).is_empty());
    q.rollback(&[1]);
    assert_eq!(q.mineable_bytes(), 17);
}

#[test]
fn commit_sweeps_what_is_stale_in_flight() {
    let mut p = pool();
    see_proposal(&mut p, vec![TestTx::new(1, 5), TestTx::new(2, 5)], 2);
    see_proposal(&mut p, vec![TestTx::new(1, 9)], 3);
    p.commit(&batch(vec![TestTx::new(1, 7)]), 2);
    assert_eq!(p.high_committed(1), 7);
    assert!(p.inflight((1, 5)).is_none());
    assert_eq!(p.inflight_at(2), Some(vec![(2, 5)]));
    assert_eq!(p.inflight((1, 9)).unwrap().0, 3);
    assert!(p.inflight((2, 5)).is_some());
}

#[test]
fn watermarks_do_not_depend_on_the_order() {
    let mut a = pool();
    a.commit(&batch(vec![TestTx::new(1, 7), TestTx::new(2, 1)]), 1);
    a.add_tx(TestTx::new(1, 8), 1);
    a.commit(&batch(vec![TestTx::new(1, 3)]), 2);
    let mut b = pool();
    b.commit(&batch(vec![TestTx::new(1, 3)]), 1);
    b.commit(&batch(vec![TestTx::new(2, 1), TestTx::new(1, 7)]), 2);
    for p in [&a, &b] {
        assert_eq!(p.high_committed(1), 7);
        assert_eq!(p.high_committed(2), 1);
        assert_eq!(p.high_committed(3), 0);
    }
}

#[test]
fn nonce_zero_is_a_replay() {
    let mut p = pool();
    p.add_tx(TestTx::new(1, 0), 10);
    assert_eq!(p.mineable_len(), 0);
}

#[test]
fn second_admission_changes_nothing() {
    let mut p = pool();
    see_proposal(&mut p, vec![TestTx::new(1, 1), TestTx::new(1, 2)], 4);
    see_proposal(&mut p, vec![TestTx::new(1, 1), TestTx::new(1, 2)], 5);
    assert_eq!(p.inflight((1, 1)), Some((4, 11)));
    assert_eq!(p.inflight_at(4).unwrap().len(), 2);
    assert_eq!(p.inflight_at(5).unwrap().len(), 0);
}

#[test]
fn rollback_undoes_a_batch() {
    let mut p = pool();
    p.add_tx(TestTx::new(1, 1), 3);
    p.add_tx(TestTx::new(2, 1), 4);
    p.make_batch(6);
    assert_eq!(p.mineable_bytes(), 0);
    p.rollback(&[5, 6]);
    assert_eq!(p.mineable_bytes(), 7);
    assert_eq!(p.mineable((2, 1)).unwrap().1, 4);
    assert!(p.inflight_at(6).is_none());
}

#[test]
fn an_emptied_round_leaves_the_index() {
    let mut p = pool();
    see_proposal(&mut p, vec![TestTx::new(1, 1)], 4);
    p.commit(&batch(vec![TestTx::new(1, 1)]), 4);
    assert!(p.inflight_at(4).is_none());
}

fn batcher(my_id: u16, batch_size: usize) -> RRBatcher<TestTx> {
    RRBatcher::new(&Parameters::new(my_id, 0, batch_size, Duration::from_millis(50)))
}

#[test]
fn leader_proposes_once_per_round() {
    let mut b = batcher(0, 20);
    assert!(b.can_propose());
    assert!(b
        .step(BatcherEvent::Tx(Some((TestTx::new(1, 1), 10))))
        .unwrap()
        .is_none());
    let out = b
        .step(BatcherEvent::Tx(Some((TestTx::new(1, 2), 10))))
        .unwrap()
        .unwrap();
    assert_eq!(out.payload.len(), 2);
    assert!(!b.can_propose());
    assert!(b.take_timer_reset());
    b.step(BatcherEvent::Tx(Some((TestTx::new(1, 3), 20)))).unwrap();
    assert!(b.step(BatcherEvent::Tick).unwrap().is_none());
    let next = b
        .step(BatcherEvent::Consensus(Some((
            BatcherConsensusMsg::NewRound { leader: 0, round: 1 },
            vec![],
        ))))
        .unwrap()
        .unwrap();
    assert_eq!(next.payload[0].nonce, 3);
    assert_eq!(b.pool().inflight((1, 3)), Some((1, 20)));
}

#[test]
fn others_do_not_propose() {
    let mut b = batcher(3, 1);
    assert!(b
        .step(BatcherEvent::Tx(Some((TestTx::new(1, 1), 10))))
        .unwrap()
        .is_none());
    assert!(b.step(BatcherEvent::Tick).unwrap().is_none());
    assert_eq!(b.pool().mineable_bytes(), 10);
}

#[test]
fn timer_flushes_a_partial_batch_but_not_an_empty_one() {
    let mut b = batcher(0, 1000);
    assert!(b.step(BatcherEvent::Tick).unwrap().is_none());
    assert!(b.can_propose());
    b.step(BatcherEvent::Tx(Some((TestTx::new(1, 1), 10)))).unwrap();
    assert_eq!(b.step(BatcherEvent::Tick).unwrap().unwrap().payload.len(), 1);
}

#[test]
fn consensus_drives_the_pool() {
    let mut b = batcher(3, 1000);
    let txs = vec![TestTx::new(1, 1)];
    b.step(BatcherEvent::Consensus(Some((
        BatcherConsensusMsg::Proposed { batch: Arc::new(batch(txs.clone())), round: 2 },
        vec![11],
    ))))
    .unwrap();
    assert_eq!(b.pool().inflight((1, 1)), Some((2, 11)));
    b.step(BatcherEvent::Consensus(Some((
        BatcherConsensusMsg::Rollback { rounds: vec![2] },
        vec![],
    ))))
    .unwrap();
    assert_eq!(b.pool().mineable_bytes(), 11);
    b.step(BatcherEvent::Consensus(Some((
        BatcherConsensusMsg::Committed { batch: Arc::new(batch(txs)), round: 2 },
        vec![],
    ))))
    .unwrap();
    assert_eq!(b.pool().high_committed(1), 1);
    assert_eq!(b.pool().mineable_bytes(), 0);
}

#[test]
fn closed_channels_end_the_batcher() {
    let mut b = batcher(0, 10);
    assert_eq!(b.step(BatcherEvent::Tx(None)).err(), Some(BatcherError::TxChannelClosed));
    assert_eq!(
        b.step(BatcherEvent::Consensus(None)).err(),
        Some(BatcherError::ConsensusChannelClosed)
    );
    assert_eq!(b.step(BatcherEvent::Unsent).err(), Some(BatcherError::BatchChannelClosed));
}

#[derive(Clone, Debug, PartialEq)]
struct Dummy(u64);

impl serde::Serialize for Dummy {
    fn serialize<S: serde::Serializer>(&self, s: S) -> Result<S::Ok, S::Error> {
        s.serialize_newtype_struct("Dummy", &self.0)
    }
}

/// A batch on the wire: the list of its transactions.
struct Wire<'a>(&'a CachedBatch<Dummy>);

impl<'a> serde::Serialize for Wire<'a> {
    fn serialize<S: serde::Serializer>(&self, s: S) -> Result<S::Ok, S::Error> {
        s.collect_seq(self.0.payload.iter().map(|t| t.as_ref()))
    }
}

fn shared(v: &[Dummy]) -> Vec<Arc<Dummy>> {
    v.iter().cloned().map(Arc::new).collect()
}

fn wires(v: &[Dummy]) -> Vec<Vec<u8>> {
    v.iter().map(|t| bincode::serialize(t).unwrap()).collect()
}

#[test]
fn wire_format_matches_bare_vec() {
    let v = vec![Dummy(1), Dummy(2), Dummy(3)];
    let batch = CachedBatch::new(shared(&v));
    let batch_bytes = bincode::serialize(&Wire(&batch)).unwrap();
    let vec_bytes = bincode::serialize(&v).unwrap();
    assert_eq!(batch_bytes, vec_bytes);
}

#[test]
fn roundtrip_preserves_payload_and_populates_hash() {
    let v = vec![Dummy(1), Dummy(2), Dummy(3)];
    let mut batch = CachedBatch::new(shared(&v));
    let bytes = bincode::serialize(&Wire(&batch)).unwrap();
    let decoded: Vec<u64> = bincode::deserialize(&bytes).unwrap();
    let mut got = CachedBatch::decoded(
        decoded.into_iter().map(|n| Arc::new(Dummy(n))).collect(),
        &bytes,
    );
    assert_eq!(got.payload, shared(&v));
    assert!(got.cached_hash().is_some());
    assert_eq!(got.hash(&[]), batch.hash(&bytes));
}

#[test]
fn tx_hashes_cached() {
    let v = vec![Dummy(1), Dummy(2)];
    let mut batch = CachedBatch::new(shared(&v));
    let a = batch.tx_hashes(&wires(&v));
    let b = batch.tx_hashes(&wires(&v));
    assert!(Arc::ptr_eq(&a, &b));
}

#[test]
fn new_with_tx_hashes_skips_recompute() {
    let v = vec![Dummy(1), Dummy(2)];
    let precomputed: Arc<Vec<Digest>> =
        Arc::new(wires(&v).iter().map(|w| do_hash(w)).collect::<Vec<_>>());
    let mut batch = CachedBatch::new_with_tx_hashes(shared(&v), precomputed.clone());
    assert!(Arc::ptr_eq(&batch.tx_hashes(&wires(&v)), &precomputed));
}

#[test]
fn clone_keeps_what_is_known() {
    let v = vec![Dummy(1), Dummy(2)];
    let mut batch = CachedBatch::new(shared(&v));
    let h = batch.hash(b"wire");
    let hashes = batch.tx_hashes(&wires(&v));
    let copy = batch.clone();
    assert_eq!(copy.cached_hash(), Some(h));
    assert!(Arc::ptr_eq(&copy.cached_tx_hashes().unwrap(), &hashes));
    assert!(Arc::ptr_eq(&copy.payload[1], &batch.payload[1]));
}

fn numbers(v: &[u32]) -> Arc<CachedBatch<u32>> {
    Arc::new(CachedBatch::new(v.iter().map(|n| Arc::new(*n)).collect()))
}

#[test]
fn duplicate_insert_is_noop() {
    let mut c = BatchCache::<u32>::new(4);
    let h = do_hash(b"x");
    c.insert(h, numbers(&[1]));
    c.insert(h, numbers(&[2]));
    assert_eq!(c.len(), 1);
}

#[test]
fn get_roundtrip() {
    let mut c = BatchCache::<u32>::new(4);
    let h = do_hash(b"y");
    c.insert(h, numbers(&[7, 8, 9]));
    let g = c.get(&h).expect("hit");
    assert_eq!(g.payload, numbers(&[7, 8, 9]).payload);
}

#[test]
fn first_writer_wins() {
    let mut c = BatchCache::<u32>::new(DEFAULT_CACHE_CAP);
    assert!(c.get(&do_hash(b"x")).is_none());
    c.insert(do_hash(b"x"), numbers(&[1]));
    c.insert(do_hash(b"y"), numbers(&[3]));
    c.insert(do_hash(b"x"), numbers(&[2]));
    assert_eq!(*c.get(&do_hash(b"x")).unwrap().payload[0], 1);
    assert_eq!(c.len(), 2);
}

#[test]
fn sha256_of_known_text() {
    let d = do_hash(b"x");
    assert_eq!(d.hi, 0x2d711642b726b04401627ca9fbac32f5);
    assert_eq!(d.lo, 0xc8530fb1903cc4db02258717921a4881);
    let bytes = d.to_vec();
    assert_eq!(bytes.len(), 32);
    assert_eq!(bytes[0], 0x2d);
    assert_eq!(bytes[31], 0x81);
    assert_eq!(Digest::from_slice(&bytes), Some(d));
    assert_eq!(Digest::from_slice(&bytes[1..]), None);
    assert_eq!(d.low_u64(), 0x02258717921a4881);
}

#[test]
fn sealed_batch_is_cached_and_stored_under_its_hash() {
    let mut c = BatchCache::<u32>::new(4);
    let b = numbers(&[5]);
    let (hashed, write) = Processor::process(&mut c, b.clone(), b"y".to_vec());
    assert_eq!(hashed.hash, do_hash(b"y"));
    assert_eq!(write.key, do_hash(b"y").to_vec());
    assert_eq!(write.bytes, b"y".to_vec());
    assert!(matches!(read_batch(&c, hashed.hash), BatchRead::Hit(_)));
}

#[test]
fn kept_hash_counts_for_a_sealed_batch() {
    let mut c = BatchCache::<u32>::new(4);
    let b = Arc::new(CachedBatch::decoded(vec![Arc::new(5u32)], b"x"));
    let (hashed, _) = Processor::process(&mut c, b, b"y".to_vec());
    assert_eq!(hashed.hash, do_hash(b"x"));
}

#[test]
fn miss_goes_to_the_store_and_fills_the_cache() {
    let mut c = BatchCache::<u32>::new(4);
    let h = do_hash(b"y");
    match read_batch(&c, h) {
        BatchRead::Miss { key } => assert_eq!(key, h.to_vec()),
        BatchRead::Hit(_) => panic!("nothing is filed"),
    }
    assert!(finish_read(&mut c, h, None).is_none());
    assert_eq!(c.len(), 0);
    let found = CachedBatch::new(vec![Arc::new(9u32)]);
    assert_eq!(*finish_read(&mut c, h, Some(found)).unwrap().payload[0], 9);
    assert!(matches!(read_batch(&c, h), BatchRead::Hit(_)));
}

#[test]
fn persisted_batch_is_read_back() {
    let mut c = BatchCache::<u32>::new(4);
    let w = persist_batch(&mut c, do_hash(b"x"), numbers(&[1]), b"wire".to_vec());
    assert_eq!(w.bytes, b"wire".to_vec());
    match read_batch(&c, do_hash(b"x")) {
        BatchRead::Hit(b) => assert_eq!(*b.payload[0], 1),
        BatchRead::Miss { .. } => panic!("it was filed"),
    }
}

#[test]
fn count_sealer_seals_at_its_threshold() {
    let s = CountSealer::new(3);
    assert!(!Sealer::<u32>::should_seal(&s, 2));
    assert!(Sealer::<u32>::should_seal(&s, 3));
    let mut b: Batcher<u32> = Batcher::new();
    assert!(b.push(Arc::new(1), &s).is_none());
    assert!(b.push(Arc::new(2), &s).is_none());
    let sealed = b.push(Arc::new(3), &s).unwrap();
    assert_eq!(sealed.payload, numbers(&[1, 2, 3]).payload);
    assert!(b.queue_txs.is_empty());
}

#[test]
fn intake_skips_what_is_no_transaction() {
    assert!(matches!(Receiver::step::<u32>(Incoming::Closed), IntakeStep::Stop));
    assert!(matches!(Receiver::step::<u32>(Incoming::Undecodable), IntakeStep::Skip));
    match Receiver::step(Incoming::Tx(Arc::new(4u32))) {
        IntakeStep::Forward(t) => assert_eq!(*t, 4),
        _ => panic!("it is a transaction"),
    }
}

fn addr(port: u16) -> PeerAddr {
    PeerAddr::V4 { ip4: 0x7f000001, port }
}

#[test]
fn each_transaction_is_registered_then_submitted() {
    let msg = ClientMsg::NewBatch {
        batch: vec![Arc::new(1u32), Arc::new(2u32)],
        reply_to: addr(9),
    };
    let actions = on_client_msg(msg, &vec![b"x".to_vec(), b"yy".to_vec()]);
    assert_eq!(actions.len(), 4);
    assert!(matches!(actions[0], ListenerAction::Register(h, a) if h == do_hash(b"x") && a == addr(9)));
    assert!(matches!(&actions[1], ListenerAction::Submit(t, 1) if **t == 1));
    assert!(matches!(&actions[3], ListenerAction::Submit(t, 2) if **t == 2));
    let one = on_client_msg(ClientMsg::NewTx { tx: Arc::new(3u32), reply_to: addr(1) }, &vec![b"x".to_vec()]);
    assert_eq!(one.len(), 2);
    let none = on_client_msg::<u32>(ClientMsg::Confirmation(do_hash(b"x")), &vec![]);
    assert!(none.is_empty());
}

#[test]
fn confirmations_go_out_once_and_in_order() {
    let mut r = ConfirmationRouter::new();
    let (x, y, z) = (do_hash(b"x"), do_hash(b"y"), do_hash(b"z"));
    r.register(x, addr(1));
    r.register(y, addr(1));
    r.register(x, addr(2));
    let actions = r.on_committed(&vec![y, z, x, y]);
    assert_eq!(actions.len(), 4);
    assert!(matches!(actions[0], RouterAction::Connect(a) if a == addr(1)));
    assert!(matches!(actions[1], RouterAction::Confirm(a, h) if a == addr(1) && h == y));
    assert!(matches!(actions[2], RouterAction::Connect(a) if a == addr(2)));
    assert!(matches!(actions[3], RouterAction::Confirm(a, h) if a == addr(2) && h == x));
    assert!(r.on_committed(&vec![x, y]).is_empty());
    r.register(z, addr(2));
    assert_eq!(r.on_committed(&vec![z]).len(), 1);
}

#[test]
fn digests_have_their_own_bytes() {
    let a = Digest { hi: 1, lo: 2 };
    let b = Digest { hi: 1, lo: 3 };
    assert_eq!(a.to_vec()[15], 1);
    assert_eq!(a.to_vec()[31], 2);
    assert_ne!(a.to_vec(), b.to_vec());
    assert!(matches!(Digest::from_slice(&a.to_vec()), Some(d) if d == a));
    assert!(Digest::from_slice(&a.to_vec()[1..]).is_none());
}

#[test]
fn unresolved_handlers_stay_in_order() {
    let mut h: Handlers<u8> = Handlers::new();
    h.remember(4, 1);
    h.remember(4, 2);
    h.remember(4, 3);
    h.remember(5, 4);
    let polled = h.take(4).into_iter().map(|x| (x, x == 2)).collect();
    h.gc_handlers(4, polled);
    let polled = h.take(5).into_iter().map(|x| (x, true)).collect();
    h.gc_handlers(5, polled);
    assert_eq!(h.rounds(), vec![4]);
    assert_eq!(h.take(4), vec![1, 3]);
    assert!(h.rounds().is_empty());
    assert!(h.take(9).is_empty());
}

#[test]
fn a_run_proposes_once_per_round_and_ends() {
    let mut b = batcher(0, 10);
    let tx = |n: u64| BatcherEvent::Tx(Some((TestTx::new(1, n), 10)));
    let round = |leader: u16, round: u64| {
        BatcherEvent::Consensus(Some((BatcherConsensusMsg::NewRound { leader, round }, vec![])))
    };
    let evs = vec![tx(1), tx(2), BatcherEvent::Tick, round(1, 1), tx(3), round(0, 2), tx(4)];
    let (batches, outcome) = b.run(VecDeque::from(evs));
    assert_eq!(outcome, Ok(()));
    let nonces: Vec<u64> = batches.iter().map(|b| b.payload[0].nonce).collect();
    assert_eq!(nonces, vec![1, 2]);
    assert_eq!(b.pool().inflight((1, 1)), Some((0, 10)));
    assert_eq!(b.pool().inflight((1, 2)), Some((2, 10)));
    let evs = vec![round(0, 3), BatcherEvent::Consensus(None), round(0, 4)];
    let (batches, outcome) = b.run(VecDeque::from(evs));
    assert_eq!(batches.len(), 1);
    assert_eq!(outcome, Err(BatcherError::ConsensusChannelClosed));
    assert_eq!(b.pool().inflight((1, 3)), Some((3, 10)));
}
