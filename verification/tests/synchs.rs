use libapollo::chain::block::Header;
use libapollo::config::node::Node;
use libapollo::digest::Digest;
use libapollo::mempool::batch::CachedBatch;
use libapollo::mempool::processor::HashedBatch;
use libapollo::optsync;
use libapollo::synchs::commit::announce;
use libapollo::synchs::context::{commit_delay_millis, Context};
use libapollo::synchs::proposal::{check_proposal, next_header, NewBlock};
use libapollo::synchs::queue::TxQueue;
use libapollo::synchs::reactor::{next_txs, propose, react, Event, Next};
use libapollo::synchs::types::{
    first_hash, Action, Block, CertType, Certificate, Halt, Propose, ProtocolMsg, Vote,
};
use std::sync::Arc;

fn digest(n: u128) -> Digest {
    Digest { hi: 0, lo: n }
}

fn block(n: u128, txs: Vec<Digest>) -> Arc<Block> {
    Arc::new(Block {
        header: Header { prev: digest(n.saturating_sub(1)), author: 0, height: n as u64 },
        tx_hashes: Arc::new(txs),
        batch_hash: digest(1000 + n),
        hash: digest(n),
    })
}

fn config(id: u16, n: usize) -> Node {
    let mut c = Node::new();
    c.num_nodes = n;
    c.num_faults = 1;
    c.id = id;
    c.payload = 2;
    c.block_size = 3;
    for r in 0..n {
        c.pk_map.insert(r as u16, vec![1]);
    }
    c.client_net_map.insert(7, "127.0.0.1:1".to_string());
    c
}

fn node(id: u16) -> Context<u32> {
    Context::new(&config(id, 3), block(0, vec![]))
}

fn single_vote(origin: u16, signed: bool) -> Arc<Vote> {
    Arc::new(Vote { origin, auth: Arc::new(vec![]), signed })
}

fn cert(hash: u128, voters: &[u16]) -> Arc<Certificate> {
    Arc::new(Certificate {
        msg: CertType::Vote(0, digest(hash)),
        votes: voters.iter().map(|v| single_vote(*v, true)).collect(),
    })
}

fn prop(n: u128) -> Arc<Propose> {
    Arc::new(Propose {
        block_hash: digest(n),
        cert: cert(n.saturating_sub(1), &[0, 1]),
        view: 0,
        proof: Arc::new(vec![]),
        signed: true,
    })
}

fn take_proposal(cx: &mut Context<u32>, n: u128) -> Vec<Action<u32>> {
    let ev = Event::Proposal {
        prop: prop(n),
        block: block(n, vec![digest(100 + n)]),
        auth: Arc::new(vec![9]),
    };
    assert!(matches!(react(ev, cx), Ok(Next::Propose)));
    std::mem::take(&mut cx.outbox)
}

#[test]
fn a_good_proposal_is_voted_for_and_scheduled() {
    let mut cx = node(1);
    assert!(matches!(
        react(Event::Tx { hash: digest(101), tx: Arc::new(5) }, &mut cx),
        Ok(Next::Propose)
    ));
    assert_eq!(cx.tx_pool.get_tx_pool_size(), 1);
    let actions = take_proposal(&mut cx, 1);
    match &actions[0] {
        Action::Multicast(ProtocolMsg::VoteMsg(c, p)) => {
            assert_eq!(c.msg, CertType::Vote(0, digest(1)));
            assert_eq!(c.votes.len(), 1);
            assert_eq!(c.votes[0].origin, 1);
            assert_eq!(*c.votes[0].auth, vec![9]);
            assert_eq!(p.block_hash, digest(1));
        }
        _ => panic!("a vote goes out"),
    }
    assert!(matches!(&actions[1], Action::Schedule(p) if p.block_hash == digest(1)));
    assert_eq!(cx.height, 1);
    assert_eq!(cx.last_seen_block.hash, digest(1));
    assert_eq!(cx.tx_pool.get_tx_pool_size(), 0);
    assert!(take_proposal(&mut cx, 1).is_empty());
}

#[test]
fn proposals_are_judged() {
    let cx = node(1);
    assert_eq!(check_proposal(&prop(1), &block(1, vec![]), &cx), Ok(true));
    assert_eq!(check_proposal(&prop(2), &block(1, vec![]), &cx), Ok(false));
    let mut b = Block {
        header: Header { prev: digest(0), author: 1, height: 1 },
        tx_hashes: Arc::new(vec![]),
        batch_hash: digest(0),
        hash: digest(1),
    };
    assert_eq!(check_proposal(&prop(1), &b, &cx), Ok(false));
    b.header = Header { prev: digest(5), author: 0, height: 1 };
    assert_eq!(check_proposal(&prop(1), &b, &cx), Ok(false));
    let unsigned = Propose {
        block_hash: digest(1),
        cert: cert(0, &[]),
        view: 0,
        proof: Arc::new(vec![]),
        signed: false,
    };
    assert_eq!(check_proposal(&unsigned, &block(1, vec![]), &cx), Ok(false));
    let other_view = Propose { view: 3, signed: true, ..unsigned };
    assert_eq!(check_proposal(&other_view, &block(1, vec![]), &cx), Err(Halt::WrongView));
}

#[test]
fn later_blocks_need_votes_for_the_last_block_seen() {
    let mut cx = node(1);
    take_proposal(&mut cx, 1);
    let with = |c: Arc<Certificate>| Propose {
        block_hash: digest(2),
        cert: c,
        view: 0,
        proof: Arc::new(vec![]),
        signed: true,
    };
    let b = block(2, vec![]);
    assert_eq!(check_proposal(&with(cert(1, &[0, 1])), &b, &cx), Ok(true));
    assert_eq!(check_proposal(&with(cert(1, &[0])), &b, &cx), Ok(false));
    assert_eq!(check_proposal(&with(cert(7, &[0, 1])), &b, &cx), Ok(false));
    assert_eq!(check_proposal(&with(cert(1, &[0, 9])), &b, &cx), Ok(false));
    let forged = Arc::new(Certificate {
        msg: CertType::Vote(0, digest(1)),
        votes: vec![single_vote(0, true), single_vote(1, false)],
    });
    assert_eq!(check_proposal(&with(forged), &b, &cx), Ok(false));
    let blame = Arc::new(Certificate {
        msg: CertType::Blame(0, 1),
        votes: vec![single_vote(0, true), single_vote(1, true)],
    });
    assert_eq!(check_proposal(&with(blame), &b, &cx), Ok(false));
}

#[test]
fn unknown_leader_halts() {
    let mut c = config(1, 3);
    c.pk_map.remove(0);
    let cx: Context<u32> = Context::new(&c, block(0, vec![]));
    assert_eq!(check_proposal(&prop(1), &block(1, vec![]), &cx), Err(Halt::UnknownLeader));
}

fn vote_event(n: u128, origin: u16) -> Event<u32> {
    Event::Vote { cert: cert(n, &[origin]), prop: prop(n) }
}

#[test]
fn more_votes_than_faults_certify_a_block() {
    let mut cx = node(1);
    take_proposal(&mut cx, 1);
    assert!(react(vote_event(1, 0), &mut cx).is_ok());
    assert!(!cx.cert_map.contains_key(digest(1)));
    assert!(react(vote_event(1, 2), &mut cx).is_ok());
    assert!(cx.cert_map.contains_key(digest(1)));
    assert_eq!(cx.last_seen_cert.votes.len(), 2);
}

#[test]
fn bad_votes_do_not_count() {
    let mut cx = node(1);
    assert!(react(vote_event(1, 0), &mut cx).is_ok());
    assert!(!cx.vote_map.contains_key(digest(1)));
    take_proposal(&mut cx, 1);
    assert!(react(vote_event(1, 8), &mut cx).is_ok());
    assert!(!cx.vote_map.contains_key(digest(1)));
    let blame = Arc::new(Certificate {
        msg: CertType::Blame(0, 1),
        votes: vec![single_vote(0, true)],
    });
    assert_eq!(
        react(Event::Vote { cert: blame, prop: prop(1) }, &mut cx).err(),
        Some(Halt::NotAVote)
    );
}

#[test]
fn commit_takes_the_ancestors_along() {
    let mut cx = node(1);
    take_proposal(&mut cx, 1);
    take_proposal(&mut cx, 2);
    assert!(react(Event::Timer(prop(2)), &mut cx).is_ok());
    let announced: Vec<u64> = cx
        .outbox
        .iter()
        .filter_map(|a| match a {
            Action::Announce(b) => Some(b.header.height),
            _ => None,
        })
        .collect();
    assert_eq!(announced, vec![1, 2]);
    assert!(matches!(cx.outbox[2], Action::CollectHandlers));
    assert!(cx.storage.is_committed_by_hash(&digest(1)));
    assert_eq!(cx.last_committed_block_ht, 2);
    cx.outbox.clear();
    assert!(react(Event::Timer(prop(1)), &mut cx).is_ok());
    assert!(react(Event::Timer(prop(8)), &mut cx).is_ok());
    assert!(cx.outbox.is_empty());
}

#[test]
fn clients_hear_of_commits() {
    let mut cx = node(1);
    announce(block(1, vec![]), Some(Arc::new(vec![digest(4)])), &mut cx);
    assert!(matches!(
        &cx.outbox[0],
        Action::NotifyClients { tx_hashes, payload: 6, .. } if tx_hashes[0] == digest(4)
    ));
    announce(block(1, vec![]), None, &mut cx);
    assert!(matches!(
        &cx.outbox[1],
        Action::NotifyClients { tx_hashes, .. } if tx_hashes.is_empty()
    ));
    let mut c = config(1, 3);
    c.client_net_map.remove(7);
    let mut alone: Context<u32> = Context::new(&c, block(0, vec![]));
    announce(block(1, vec![]), None, &mut alone);
    assert!(alone.outbox.is_empty());
}

fn new_block(n: u128) -> NewBlock {
    NewBlock {
        tx_hashes: Arc::new(vec![]),
        batch_hash: digest(1000 + n),
        block_hash: digest(n),
        proof_bytes: Arc::new(vec![2]),
    }
}

#[test]
fn leader_proposes_a_full_block() {
    let mut cx = node(0);
    assert!(next_txs(2, &mut cx).is_none());
    react(Event::Tx { hash: digest(1), tx: Arc::new(11) }, &mut cx).unwrap();
    react(Event::Tx { hash: digest(2), tx: Arc::new(12) }, &mut cx).unwrap();
    react(Event::Tx { hash: digest(3), tx: Arc::new(13) }, &mut cx).unwrap();
    let txs = next_txs(2, &mut cx).unwrap();
    assert_eq!(txs, vec![Arc::new(11), Arc::new(12)]);
    assert_eq!(cx.tx_pool.get_tx_pool_size(), 1);
    assert_eq!(next_header(&cx).unwrap().prev, first_hash());
    let p = propose(new_block(1), None, &mut cx).unwrap();
    assert_eq!(p.block_hash, digest(1));
    assert!(matches!(
        &cx.outbox[0],
        Action::Multicast(ProtocolMsg::NewProposal(_, b, None)) if b.header.height == 1
    ));
    assert!(matches!(&cx.outbox[1], Action::Schedule(_)));
    assert!(cx.storage.is_delivered_by_hash(&digest(1)));
}

#[test]
fn queue_drops_and_cleaves() {
    let mut q: TxQueue<u32> = TxQueue::new();
    q.add_transaction(digest(1), Arc::new(1));
    q.add_transaction(digest(2), Arc::new(2));
    q.add_transaction(digest(1), Arc::new(3));
    assert_eq!(q.get_tx_pool_size(), 2);
    assert_eq!(q.cleave(1), vec![Arc::new(2)]);
    q.clear(&vec![digest(1)]);
    assert_eq!(q.get_tx_pool_size(), 0);
}

#[test]
fn timers_and_streams_end() {
    let mut cx = node(1);
    assert!(matches!(react(Event::TimersDone, &mut cx), Ok(Next::Propose)));
    assert!(matches!(react(Event::Misfire, &mut cx), Ok(Next::Wait)));
    assert!(matches!(react(Event::Closed, &mut cx), Ok(Next::Stop)));
}

fn batch(n: u128) -> HashedBatch<u32> {
    HashedBatch {
        hash: digest(1000 + n),
        batch: Arc::new(CachedBatch::new(vec![Arc::new(n as u32)])),
    }
}

fn opt_node(id: u16) -> optsync::context::Context<u32> {
    optsync::context::Context::new(&config(id, 4), block(0, vec![]))
}

fn opt_message(cx: &mut optsync::context::Context<u32>, msg: ProtocolMsg<u32>) -> Vec<Action<u32>> {
    let r = optsync::reactor::react(
        optsync::reactor::Event::Message { msg, auth: Arc::new(vec![1]) },
        cx,
    );
    assert!(r.is_ok());
    std::mem::take(&mut cx.sync.outbox)
}

#[test]
fn fast_path_commits_at_three_quarters() {
    let mut cx = opt_node(1);
    assert_eq!(cx.d2_millis, 100);
    assert_eq!(cx.leader_of_view(), 0);
    let actions = opt_message(
        &mut cx,
        ProtocolMsg::NewProposal(prop(1), block(1, vec![]), Some(batch(1))),
    );
    assert!(actions.iter().any(|a| matches!(a, Action::Persist(_))));
    assert!(actions.iter().any(|a| matches!(a, Action::Schedule(_))));
    let vote = |o: u16| ProtocolMsg::VoteMsg(cert(1, &[o]), prop(1));
    assert!(opt_message(&mut cx, vote(0)).is_empty());
    assert!(opt_message(&mut cx, vote(2)).is_empty());
    assert!(cx.sync.cert_map.contains_key(digest(1)));
    assert!(!cx.sync.storage.is_committed_by_hash(&digest(1)));
    let actions = opt_message(&mut cx, vote(3));
    assert!(actions.iter().any(|a| matches!(a, Action::Announce(b) if b.hash == digest(1))));
    assert!(cx.sync.storage.is_committed_by_hash(&digest(1)));
    assert!(cx.resp_cert.contains_key(digest(1)));
    assert!(opt_message(&mut cx, vote(1)).is_empty());
}

#[test]
fn slow_path_commits_on_the_timer() {
    let mut cx = opt_node(1);
    opt_message(
        &mut cx,
        ProtocolMsg::NewProposal(prop(1), block(1, vec![]), Some(batch(1))),
    );
    assert!(optsync::reactor::react(optsync::reactor::Event::Timer(prop(1)), &mut cx).is_ok());
    assert!(cx.sync.storage.is_committed_by_hash(&digest(1)));
}

#[test]
fn wrong_batch_is_refused() {
    let mut cx = opt_node(1);
    let actions = opt_message(
        &mut cx,
        ProtocolMsg::NewProposal(prop(1), block(1, vec![]), Some(batch(2))),
    );
    assert!(actions.is_empty());
    assert!(!cx.sync.storage.is_delivered_by_hash(&digest(1)));
}

#[test]
fn opt_leader_proposes_pending_batches() {
    let mut cx = opt_node(0);
    assert!(optsync::reactor::next_batch(&mut cx).is_none());
    assert!(optsync::reactor::react(optsync::reactor::Event::Batch(batch(1)), &mut cx).is_ok());
    assert_eq!(optsync::reactor::next_batch(&mut cx).unwrap().hash, digest(1001));
    assert!(optsync::reactor::next_batch(&mut cx).is_none());
}

#[test]
fn commits_wait_for_twice_the_delay() {
    let mut config = Node::new();
    config.delta = 50;
    assert_eq!(commit_delay_millis(&config), 100);
}
