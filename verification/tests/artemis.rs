use libapollo::artemis::commit::settle;
use libapollo::artemis::context::Context;
use libapollo::artemis::coordinator::{check_batch_hash, do_new_block, next_header};
use libapollo::artemis::leaders::Leaders;
use libapollo::artemis::metrics::{buckets_us, Histogram, Metrics};
use libapollo::artemis::reactor::{next_batch, react, Event, Next};
use libapollo::artemis::request::respond;
use libapollo::artemis::round_vote::{do_round_vote, try_round_vote};
use libapollo::artemis::types::{Action, Metric, ProtocolMsg, SignedBlock, UCRVote};
use libapollo::chain::block::{Block, Header};
use libapollo::config::node::Node;
use libapollo::digest::Digest;
use libapollo::hash::do_hash;
use libapollo::mempool::batch::CachedBatch;
use libapollo::mempool::messages::BatcherConsensusMsg;
use libapollo::mempool::processor::HashedBatch;
use std::collections::VecDeque;
use std::sync::Arc;

fn digest(n: u128) -> Digest {
    Digest { hi: 0, lo: n }
}

fn block(n: u128) -> Arc<SignedBlock> {
    Arc::new(SignedBlock {
        blk: Block {
            header: Header { prev: digest(n.saturating_sub(1)), author: 0, height: n as u64 },
            batch_hash: digest(1000 + n),
            hash: digest(n),
        },
        origin: 0,
        auth: Arc::new(vec![]),
        signer: Some(0),
    })
}

fn batch(n: u128) -> HashedBatch<u32> {
    HashedBatch {
        hash: digest(1000 + n),
        batch: Arc::new(CachedBatch::new(vec![Arc::new(n as u32)])),
    }
}

fn node(id: u16) -> Context<u32> {
    let mut config = Node::new();
    config.num_nodes = 3;
    config.num_faults = 1;
    config.block_size = 10;
    config.id = id;
    Context::new(&config, block(0))
}

fn vote(round: u64, hash: u128, signer: Option<u16>) -> Arc<UCRVote> {
    Arc::new(UCRVote {
        hash: digest(hash),
        round,
        view: 0,
        origin: 0,
        auth: Arc::new(vec![]),
        signer,
    })
}

fn hear(cx: &mut Context<u32>, msgs: Vec<ProtocolMsg<u32>>) -> Vec<Action<u32>> {
    match react(Event::Messages(VecDeque::from(msgs)), cx) {
        Ok(_) => {}
        Err(h) => panic!("halted: {:?}", h),
    }
    std::mem::take(&mut cx.outbox)
        .into_iter()
        .filter(|a| !matches!(a, Action::Record(Metric::ReactorIter)))
        .collect()
}

/// The node that is drawn for the round after `round` out of `eligible`.
fn drawn(round: u64, eligible: &[u16]) -> u16 {
    let lot = do_hash(&(round + 1).to_be_bytes()).low_u64();
    eligible[(lot % eligible.len() as u64) as usize]
}

#[test]
fn leaders_are_drawn_by_the_hash_of_the_round() {
    let mut l = Leaders::new(1, 3);
    let first = drawn(1, &[1, 2]);
    assert_eq!(l.next_round_leader(1), first);
    assert_eq!(l.draw(1), first);
    let eligible: Vec<u16> = [1u16, 2].iter().map(|r| if *r == first { 0 } else { *r }).collect();
    assert_eq!(l.draw(2), drawn(2, &eligible));
}

#[test]
fn a_leader_rests() {
    let mut l = Leaders::new(2, 5);
    let mut last = vec![];
    for round in 1u64..40 {
        let r = l.draw(round);
        assert!(r < 5);
        assert!(!last.iter().rev().take(2).any(|x| *x == r));
        last.push(r);
    }
}

#[test]
fn block_of_the_view_leader_is_stored() {
    let mut cx = node(1);
    let actions = hear(&mut cx, vec![ProtocolMsg::NewBlock(block(1), batch(1))]);
    assert!(matches!(actions[0], Action::Persist(_)));
    assert!(matches!(
        actions[1],
        Action::ToBatcher(BatcherConsensusMsg::NewRound { leader: 0, round: 2 })
    ));
    assert_eq!(cx.last_seen_block.blk.hash, digest(1));
    assert!(hear(&mut cx, vec![ProtocolMsg::NewBlock(block(1), batch(1))]).len() == 1);
}

#[test]
fn blocks_of_others_do_not_count() {
    let mut cx = node(1);
    let mut forged = SignedBlock {
        blk: block(1).blk,
        origin: 0,
        auth: Arc::new(vec![]),
        signer: Some(2),
    };
    hear(&mut cx, vec![ProtocolMsg::NewBlock(Arc::new(forged), batch(1))]);
    assert_eq!(cx.last_seen_block.blk.hash, digest(0));
    forged = SignedBlock { blk: block(1).blk, origin: 2, auth: Arc::new(vec![]), signer: Some(2) };
    hear(&mut cx, vec![ProtocolMsg::NewBlock(Arc::new(forged), batch(1))]);
    assert_eq!(cx.last_seen_block.blk.hash, digest(0));
    assert!(!check_batch_hash(&block(1), &batch(2)));
    assert!(hear(&mut cx, vec![ProtocolMsg::NewBlock(block(1), batch(2))]).is_empty());
    assert!(hear(&mut cx, vec![ProtocolMsg::Invalid]).is_empty());
}

#[test]
fn view_leader_puts_batches_in_blocks() {
    let mut cx = node(0);
    assert!(matches!(
        react(Event::Batch(batch(1)), &mut cx),
        Ok(Next::Propose { sample: None })
    ));
    cx.outbox.clear();
    let b = next_batch(&mut cx).unwrap();
    assert_eq!(next_header(&cx).unwrap().height, 1);
    assert_eq!(do_new_block(b, digest(1), Arc::new(vec![]), &mut cx), Ok(()));
    assert!(matches!(cx.outbox[0], Action::Record(Metric::Propose)));
    assert!(matches!(&cx.outbox[1], Action::Multicast(ProtocolMsg::NewBlock(..))));
    assert!(matches!(
        &cx.outbox[2],
        Action::ToBatcher(BatcherConsensusMsg::Proposed { round: 1, .. })
    ));
    assert!(matches!(
        &cx.outbox[3],
        Action::ToBatcher(BatcherConsensusMsg::NewRound { leader: 0, round: 2 })
    ));
    assert_eq!(cx.last_seen_block.blk.hash, digest(1));
}

#[test]
fn round_leader_votes_for_new_blocks_once() {
    let mut cx = node(0);
    assert!(!try_round_vote(&cx));
    do_new_block(batch(1), digest(1), Arc::new(vec![]), &mut cx).unwrap();
    assert!(try_round_vote(&cx));
    let next = drawn(1, &[1, 2]);
    cx.outbox.clear();
    assert_eq!(do_round_vote(Arc::new(vec![4]), &mut cx), Ok(()));
    assert!(matches!(cx.outbox[0], Action::Record(Metric::Vote)));
    assert!(matches!(
        &cx.outbox[1],
        Action::Multicast(ProtocolMsg::UCRVote(v)) if v.hash == digest(1) && v.round == 1
    ));
    assert!(matches!(
        &cx.outbox[2],
        Action::Send { to, msg: ProtocolMsg::Relay(0, _) } if *to == next
    ));
    assert!(matches!(cx.outbox[3], Action::Record(Metric::RoundAdvance)));
    assert_eq!(cx.round(), 2);
    assert_eq!(cx.round_leader, next);
    assert!(!try_round_vote(&cx));
}

#[test]
fn commit_comes_num_faults_rounds_later() {
    let mut cx = node(1);
    hear(&mut cx, vec![
        ProtocolMsg::NewBlock(block(1), batch(1)),
        ProtocolMsg::NewBlock(block(2), batch(2)),
    ]);
    hear(&mut cx, vec![ProtocolMsg::UCRVote(vote(1, 2, Some(0)))]);
    assert_eq!(cx.round(), 2);
    assert!(!cx.storage.is_committed_by_hash(&digest(1)));
    let leader = cx.round_leader;
    let v = if leader == 1 { vote(2, 2, None) } else { vote(2, 2, Some(leader)) };
    let actions = hear(&mut cx, vec![ProtocolMsg::UCRVote(v)]);
    let settled: Vec<u64> = actions
        .iter()
        .filter_map(|a| match a {
            Action::Settle(b) => Some(b.blk.header.height),
            _ => None,
        })
        .collect();
    assert_eq!(settled, vec![1, 2]);
    assert!(cx.storage.is_committed_by_hash(&digest(2)));
    cx.bench_metrics_node = 1;
    match react(Event::Tick, &mut cx) {
        Ok(Next::Propose { sample }) => assert_eq!(sample, Some(20)),
        _ => panic!("a tick samples"),
    }
}

#[test]
fn votes_of_others_do_not_count() {
    let mut cx = node(1);
    hear(&mut cx, vec![ProtocolMsg::NewBlock(block(1), batch(1))]);
    hear(&mut cx, vec![ProtocolMsg::UCRVote(vote(1, 1, Some(2)))]);
    assert_eq!(cx.round(), 1);
    hear(&mut cx, vec![ProtocolMsg::UCRVote(vote(1, 1, None))]);
    assert_eq!(cx.round(), 1);
}

#[test]
fn a_vote_waits_for_its_block() {
    let mut cx = node(1);
    let actions = hear(&mut cx, vec![ProtocolMsg::Relay(2, vote(1, 1, Some(0)))]);
    assert!(matches!(
        actions[0],
        Action::Send { to: 2, msg: ProtocolMsg::Request(1, 0, h) } if h == digest(1)
    ));
    assert_eq!(cx.round(), 1);
    hear(&mut cx, vec![ProtocolMsg::NewBlock(block(1), batch(1))]);
    assert_eq!(cx.round(), 2);
}

#[test]
fn responses_wait_for_their_parents() {
    let mut cx = node(1);
    let actions = hear(&mut cx, vec![ProtocolMsg::Response(2, 0, block(2), batch(2))]);
    assert!(matches!(
        actions[1],
        Action::Send { to: 2, msg: ProtocolMsg::Request(1, 0, h) } if h == digest(1)
    ));
    assert!(!cx.storage.is_delivered_by_hash(&digest(2)));
    hear(&mut cx, vec![ProtocolMsg::Response(2, 0, block(1), batch(1))]);
    assert!(cx.storage.is_delivered_by_hash(&digest(2)));
    assert_eq!(cx.last_seen_block.blk.hash, digest(2));
}

#[test]
fn requests_are_served_from_what_is_here() {
    let mut cx = node(1);
    assert!(hear(&mut cx, vec![ProtocolMsg::Request(2, 5, digest(2))]).is_empty());
    hear(&mut cx, vec![ProtocolMsg::Response(2, 0, block(2), batch(2))]);
    let actions = hear(&mut cx, vec![ProtocolMsg::Request(2, 5, digest(2))]);
    match &actions[0] {
        Action::Serve { to: 2, req_id: 5, block } => {
            respond(2, 5, block.clone(), None, &mut cx);
            assert!(cx.outbox.is_empty());
            respond(2, 5, block.clone(), Some(batch(2).batch), &mut cx);
            assert!(matches!(
                &cx.outbox[0],
                Action::Send { to: 2, msg: ProtocolMsg::Response(1, 5, _, b) } if b.hash == digest(1002)
            ));
        }
        _ => panic!("the request is served"),
    }
}

#[test]
fn settling_tells_batcher_and_router() {
    let mut cx = node(1);
    settle(&mut cx, &block(4), None);
    assert!(cx.outbox.is_empty());
    settle(&mut cx, &block(4), Some(batch(4).batch));
    assert!(matches!(
        &cx.outbox[0],
        Action::ToBatcher(BatcherConsensusMsg::Committed { round: 4, .. })
    ));
    assert!(matches!(&cx.outbox[1], Action::ToRouter(_)));
}

#[test]
fn artemis_ends_of_streams() {
    let mut cx = node(1);
    assert!(matches!(react(Event::Undecodable, &mut cx), Ok(Next::Wait)));
    assert!(matches!(react(Event::ProtocolClosed, &mut cx), Ok(Next::Exit)));
    assert!(matches!(react(Event::MempoolClosed, &mut cx), Ok(Next::Stop)));
}

#[test]
fn rounds_in_a_row_have_different_leaders() {
    let mut config = Node::new();
    config.num_nodes = 7;
    config.num_faults = 3;
    let mut cx: Context<u32> = Context::new(&config, block(0));
    assert_eq!(cx.round_leader, 2);
    let f = cx.num_faults();
    let mut leaders: Vec<u16> = vec![0, 1, 2];
    for round in 2u64..40 {
        let next = cx.next_round_leader();
        assert_eq!(cx.update_round(), Ok(()));
        assert_eq!(cx.round(), round);
        assert_eq!(cx.round_leader, next);
        let lately = &leaders[leaders.len() - f..];
        assert!(!lately.contains(&next));
        leaders.push(next);
    }
}

#[test]
fn histogram_buckets() {
    let mut h = Histogram::new();
    assert_eq!(buckets_us()[0], 100);
    h.record_us(99);
    h.record_us(100);
    h.record_us(499_999);
    h.record_us(u64::MAX);
    assert_eq!(h.buckets, vec![1, 1, 0, 0, 0, 0, 0, 1, 1]);
    assert_eq!(h.count, 4);
    assert_eq!(h.max_us, u64::MAX);
    let empty = Histogram::new();
    assert_eq!(empty.mean_us(), None);
    let mut two = Histogram::new();
    two.record_us(10);
    two.record_us(21);
    assert_eq!(two.mean_us(), Some(15));
}

#[test]
fn intervals_are_measured_between_events() {
    let mut m = Metrics::new();
    m.record_vote(1_000_000);
    assert_eq!(m.votes.count, 1);
    assert_eq!(m.votes.gaps.count, 0);
    m.record_vote(1_250_000);
    assert_eq!(m.votes.count, 2);
    assert_eq!(m.votes.gaps.count, 1);
    assert_eq!(m.votes.gaps.sum_us, 250);
    m.record_propose(5);
    m.record_round_advance(5);
    m.record_batch_recv(5);
    m.record_reactor_iter();
    assert_eq!(m.reactor_iters, 1);
    assert_eq!(m.proposes.count, 1);
    assert_eq!(m.round_advances.count, 1);
    assert_eq!(m.batch_recvs.count, 1);
}
