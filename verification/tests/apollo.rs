use libapollo::apollo::commit::settle;
use libapollo::apollo::context::Context;
use libapollo::apollo::proposal::{admit_batch, check_batch_hash, do_propose, next_header};
use libapollo::apollo::reactor::{next_batch, react, start, Event, Next};
use libapollo::apollo::request::respond;
use libapollo::apollo::types::{Action, Halt, Propose, ProtocolMsg};
use libapollo::chain::block::{Block, Header};
use libapollo::config::node::Node;
use libapollo::digest::Digest;
use libapollo::hash::do_hash;
use libapollo::mempool::batch::CachedBatch;
use libapollo::mempool::messages::BatcherConsensusMsg;
use libapollo::mempool::processor::HashedBatch;
use std::collections::VecDeque;
use std::sync::Arc;

fn digest(n: u128) -> Digest {
    Digest { hi: 0, lo: n }
}

fn genesis() -> Arc<Block> {
    Arc::new(Block {
        header: Header { prev: digest(0), author: 0, height: 0 },
        batch_hash: digest(0),
        hash: digest(0),
    })
}

fn node(id: u16) -> Context<u32> {
    let mut config = Node::new();
    config.num_nodes = 3;
    config.num_faults = 1;
    config.id = id;
    Context::new(&config, genesis(), false)
}

fn batch(n: u128) -> HashedBatch<u32> {
    HashedBatch {
        hash: digest(1000 + n),
        batch: Arc::new(CachedBatch::new(vec![Arc::new(n as u32)])),
    }
}

/// The block of round `n`, which extends that of the round before.
fn block(n: u128) -> Arc<Block> {
    Arc::new(Block {
        header: Header {
            prev: digest(n - 1),
            author: ((n - 1) % 3) as u16,
            height: n as u64,
        },
        batch_hash: digest(1000 + n),
        hash: digest(n),
    })
}

fn prop(n: u128, signed: bool) -> Arc<Propose> {
    Arc::new(Propose {
        block_hash: digest(n),
        round: n as u64,
        origin: ((n - 1) % 3) as u16,
        auth: Arc::new(vec![1]),
        signed,
    })
}

fn proposal(n: u128) -> ProtocolMsg<u32> {
    ProtocolMsg::NewProposal(prop(n, true), block(n), batch(n))
}

fn hear(cx: &mut Context<u32>, msgs: Vec<ProtocolMsg<u32>>) -> Vec<Action<u32>> {
    match react(Event::Messages(VecDeque::from(msgs)), cx) {
        Ok(_) => {}
        Err(h) => panic!("halted: {:?}", h),
    }
    std::mem::take(&mut cx.outbox)
}

#[test]
fn first_round_has_node_zero_as_leader() {
    let mut cx = node(1);
    assert_eq!(cx.round(), 1);
    assert_eq!(cx.round_leader(), 0);
    assert_eq!(cx.next_leader(), 1);
    assert_eq!(cx.broadcast_peers, vec![0, 2]);
    start(&mut cx);
    assert!(matches!(
        cx.outbox[0],
        Action::ToBatcher(BatcherConsensusMsg::NewRound { leader: 0, round: 1 })
    ));
}

#[test]
fn leaders_take_turns() {
    let mut cx = node(2);
    let mut leaders = vec![];
    for _ in 0..4 {
        leaders.push(cx.round_leader());
        assert_eq!(cx.update_round(), Ok(()));
    }
    assert_eq!(leaders, vec![0, 1, 2, 0]);
}

#[test]
fn proposal_is_persisted_relayed_and_ends_the_round() {
    let mut cx = node(2);
    let actions = hear(&mut cx, vec![proposal(1)]);
    assert!(matches!(&actions[0], Action::Persist(b) if b.hash == digest(1001)));
    assert!(matches!(
        &actions[1],
        Action::Send { to: 1, msg: ProtocolMsg::Relay(2, p) } if p.round == 1
    ));
    assert!(matches!(&actions[2], Action::Admit { block, round: 1 } if block.hash == digest(1)));
    assert!(matches!(actions[3], Action::CollectHandlers));
    assert!(matches!(
        actions[4],
        Action::ToBatcher(BatcherConsensusMsg::NewRound { leader: 1, round: 2 })
    ));
    assert_eq!(actions.len(), 5);
    assert_eq!(cx.round(), 2);
    assert_eq!(cx.last_seen_block.hash, digest(1));
}

#[test]
fn nothing_is_relayed_to_oneself() {
    let mut cx = node(1);
    let actions = hear(&mut cx, vec![proposal(1)]);
    assert_eq!(actions.len(), 4);
    assert!(actions.iter().all(|a| !matches!(a, Action::Send { .. })));
    assert_eq!(cx.round(), 2);
}

#[test]
fn commit_comes_num_faults_rounds_later_oldest_first() {
    let mut cx = node(2);
    assert!(hear(&mut cx, vec![proposal(1)]).iter().all(|a| !matches!(a, Action::Settle(_))));
    let second = hear(&mut cx, vec![proposal(2)]);
    let settled: Vec<u64> = second
        .iter()
        .filter_map(|a| match a {
            Action::Settle(b) => Some(b.header.height),
            _ => None,
        })
        .collect();
    assert_eq!(settled, vec![1]);
    assert!(cx.storage.is_committed_by_hash(&digest(1)));
    assert!(!cx.storage.is_committed_by_hash(&digest(2)));
}

#[test]
fn unsigned_proposals_and_those_of_others_do_not_count() {
    let mut cx = node(2);
    hear(&mut cx, vec![ProtocolMsg::NewProposal(prop(1, false), block(1), batch(1))]);
    assert_eq!(cx.round(), 1);
    let stranger = Arc::new(Propose {
        block_hash: digest(1),
        round: 1,
        origin: 1,
        auth: Arc::new(vec![]),
        signed: true,
    });
    hear(&mut cx, vec![ProtocolMsg::NewProposal(stranger, block(1), batch(1))]);
    assert_eq!(cx.round(), 1);
    hear(&mut cx, vec![proposal(1)]);
    assert_eq!(cx.round(), 2);
}

#[test]
fn mismatched_hashes_are_dropped() {
    let mut cx = node(2);
    assert!(!check_batch_hash(&block(1), &batch(2)));
    assert!(check_batch_hash(&block(1), &batch(1)));
    let a = hear(&mut cx, vec![ProtocolMsg::NewProposal(prop(1, true), block(1), batch(2))]);
    assert!(a.is_empty());
    let b = hear(&mut cx, vec![ProtocolMsg::NewProposal(prop(1, true), block(2), batch(2))]);
    assert!(b.is_empty());
    assert_eq!(cx.round(), 1);
}

#[test]
fn a_second_proposal_for_a_round_is_passed_over() {
    let mut cx = node(2);
    hear(&mut cx, vec![proposal(1)]);
    assert!(hear(&mut cx, vec![proposal(1)]).is_empty());
    assert_eq!(cx.round(), 2);
}

#[test]
fn missing_block_of_a_relay_is_asked_for() {
    let mut cx = node(1);
    let actions = hear(&mut cx, vec![ProtocolMsg::Relay(2, prop(1, true))]);
    assert!(matches!(
        actions[0],
        Action::Send { to: 2, msg: ProtocolMsg::Request(1, 0, h) } if h == digest(1)
    ));
    let actions = hear(&mut cx, vec![ProtocolMsg::Response(2, 0, prop(1, true), block(1), batch(1))]);
    assert!(matches!(actions[0], Action::Persist(_)));
    assert_eq!(cx.round(), 2);
}

#[test]
fn missing_parents_are_asked_for_and_the_chain_follows() {
    let mut cx = node(0);
    let actions = hear(&mut cx, vec![proposal(3)]);
    assert!(matches!(
        actions[1],
        Action::Send { to: 2, msg: ProtocolMsg::Request(0, 0, h) } if h == digest(2)
    ));
    let actions = hear(&mut cx, vec![proposal(2)]);
    assert!(matches!(
        actions[1],
        Action::Send { to: 1, msg: ProtocolMsg::Request(0, 0, h) } if h == digest(1)
    ));
    assert_eq!(cx.round(), 1);
    hear(&mut cx, vec![proposal(1)]);
    assert_eq!(cx.round(), 4);
    assert!(cx.storage.is_committed_by_hash(&digest(2)));
}

#[test]
fn a_proposal_for_later_waits_for_its_round() {
    let mut cx = node(0);
    hear(&mut cx, vec![proposal(1)]);
    assert_eq!(cx.round(), 2);
    let ahead = Arc::new(Propose {
        block_hash: digest(1),
        round: 3,
        origin: 2,
        auth: Arc::new(vec![]),
        signed: true,
    });
    hear(&mut cx, vec![ProtocolMsg::Relay(1, ahead)]);
    assert!(cx.future_msgs.contains_key(3));
    assert_eq!(cx.round(), 2);
}

#[test]
fn leader_proposes_its_batches() {
    let mut cx = node(0);
    match react(Event::Batch(batch(1)), &mut cx) {
        Ok(Next::Propose { sample: None }) => {}
        _ => panic!("a batch leads to proposing"),
    }
    let b = next_batch(&mut cx).unwrap();
    let h = next_header(&cx).unwrap();
    assert_eq!(h.height, 1);
    assert_eq!(h.author, 0);
    assert_eq!(h.prev, digest(0));
    assert_eq!(
        do_propose(b, digest(1), Arc::new(vec![7]), Arc::new(vec![]), &mut cx),
        Ok(())
    );
    assert!(matches!(
        &cx.outbox[0],
        Action::Multicast(ProtocolMsg::NewProposal(p, b, _)) if p.round == 1 && b.hash == digest(1)
    ));
    assert!(matches!(&cx.outbox[1], Action::Send { to: 1, msg: ProtocolMsg::Relay(0, _) }));
    assert_eq!(cx.round(), 2);
    assert!(next_batch(&mut cx).is_none());
}

#[test]
fn clients_hear_of_proposals_only_if_they_are_to() {
    let mut config = Node::new();
    config.num_nodes = 3;
    config.num_faults = 1;
    let mut cx: Context<u32> = Context::new(&config, genesis(), true);
    do_propose(batch(1), digest(1), Arc::new(vec![]), Arc::new(vec![digest(5)]), &mut cx).unwrap();
    assert!(matches!(
        &cx.outbox[1],
        Action::NotifyClients { tx_hashes, .. } if tx_hashes[0] == digest(5)
    ));
}

#[test]
fn requests_are_served_once_the_proposal_was_accepted() {
    let mut cx = node(2);
    assert!(hear(&mut cx, vec![ProtocolMsg::Request(1, 9, digest(1))]).is_empty());
    hear(&mut cx, vec![proposal(1)]);
    let actions = hear(&mut cx, vec![ProtocolMsg::Request(1, 9, digest(1))]);
    match &actions[0] {
        Action::Serve { to, req_id, prop, block } => {
            assert_eq!((*to, *req_id), (1, 9));
            respond(*to, *req_id, prop.clone(), block.clone(), None, &mut cx);
            assert!(cx.outbox.is_empty());
            respond(*to, *req_id, prop.clone(), block.clone(), Some(batch(1).batch), &mut cx);
            assert!(matches!(
                &cx.outbox[0],
                Action::Send { to: 1, msg: ProtocolMsg::Response(2, 9, ..) }
            ));
        }
        _ => panic!("the request is served"),
    }
}

#[test]
fn settling_counts_the_batch_and_tells_batcher_and_router() {
    let mut cx = node(0);
    settle(&mut cx, &block(1), None);
    assert!(cx.outbox.is_empty());
    settle(&mut cx, &block(1), Some(batch(1).batch));
    assert!(matches!(
        &cx.outbox[0],
        Action::ToBatcher(BatcherConsensusMsg::Committed { round: 1, .. })
    ));
    assert!(matches!(&cx.outbox[1], Action::ToRouter(_)));
    match react(Event::Tick, &mut cx) {
        Ok(Next::Propose { sample }) => assert_eq!(sample, Some(1)),
        _ => panic!("a tick samples"),
    }
    match react(Event::Tick, &mut cx) {
        Ok(Next::Propose { sample }) => assert_eq!(sample, Some(0)),
        _ => panic!("a tick samples"),
    }
}

#[test]
fn only_the_metrics_node_reports() {
    let mut cx = node(1);
    match react(Event::Tick, &mut cx) {
        Ok(Next::Propose { sample }) => assert_eq!(sample, None),
        _ => panic!("a tick goes on"),
    }
}

#[test]
fn ends_of_streams() {
    let mut cx = node(1);
    assert!(matches!(react(Event::Undecodable, &mut cx), Ok(Next::Wait)));
    assert!(matches!(react(Event::ProtocolClosed, &mut cx), Ok(Next::Exit)));
    assert!(matches!(react(Event::MempoolClosed, &mut cx), Ok(Next::Stop)));
}

#[test]
fn blames_are_handed_out() {
    let mut cx = node(1);
    let actions = hear(&mut cx, vec![ProtocolMsg::Blame(Arc::new(vec![3]))]);
    assert!(matches!(&actions[0], Action::Blame(b) if b[0] == 3));
}

#[test]
fn equivocating_author_is_passed_over() {
    let mut cx = node(2);
    // Another block of node 0 at height 1, known under its own hash.
    let twin = Block {
        header: Header { prev: digest(0), author: 0, height: 1 },
        batch_hash: digest(1077),
        hash: digest(77),
    };
    let p = prop(1, true);
    cx.storage.add_delivered_block(block(1));
    cx.storage.add_delivered_block(Arc::new(twin));
    assert_eq!(
        libapollo::apollo::proposal::try_receive_proposal(p, block(1), 0, &mut cx),
        Ok(())
    );
    assert_eq!(cx.round(), 1);
    assert!(cx.outbox.is_empty());
}

#[test]
fn a_gap_in_the_chain_halts() {
    let mut cx = node(2);
    // The block of round 1 is not stored, so it cannot commit in round 2.
    cx.num_faults = 0;
    let p = Arc::new(Propose {
        block_hash: digest(9),
        round: 1,
        origin: 0,
        auth: Arc::new(vec![]),
        signed: true,
    });
    assert_eq!(
        libapollo::apollo::proposal::on_receive_proposal(p, block(1), &mut cx),
        Err(Halt::BrokenChain)
    );
}

#[test]
fn the_last_round_cannot_be_left() {
    let mut cx = node(2);
    cx.round = u64::MAX;
    assert_eq!(cx.update_round(), Err(Halt::Overflow));
}

#[test]
fn known_transaction_hashes_are_taken() {
    let known = Arc::new(vec![digest(5)]);
    let fresh = CachedBatch::new(vec![Arc::new(1u32)]);
    let hashed = CachedBatch::new_with_tx_hashes(vec![Arc::new(1u32)], Arc::clone(&known));
    let wires = vec![b"tx".to_vec()];
    assert_eq!(*Context::hydrate_tx_hashes(&fresh, &wires), vec![do_hash(b"tx")]);
    assert!(Arc::ptr_eq(&Context::hydrate_tx_hashes(&hashed, &wires), &known));
}

#[test]
fn the_batcher_hears_of_every_round() {
    let mut cx = node(2);
    let actions = hear(&mut cx, vec![proposal(1), proposal(2), proposal(3)]);
    let rounds: Vec<(u16, u64)> = actions
        .iter()
        .filter_map(|a| match a {
            Action::ToBatcher(BatcherConsensusMsg::NewRound { leader, round }) => {
                Some((*leader, *round))
            }
            _ => None,
        })
        .collect();
    assert_eq!(rounds, vec![(1, 2), (2, 3), (0, 4)]);
}

#[test]
fn the_batcher_hears_of_accepted_batches() {
    let mut cx = node(2);
    admit_batch(&mut cx, 7, None);
    assert!(cx.outbox.is_empty());
    admit_batch(&mut cx, 7, Some(batch(1).batch));
    assert!(matches!(
        &cx.outbox[0],
        Action::ToBatcher(BatcherConsensusMsg::Proposed { round: 7, batch }) if batch.payload.len() == 1
    ));
}
