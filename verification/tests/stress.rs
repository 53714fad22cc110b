use libapollo::client::keyed::{burst_of_window, KeyedClient};
use libapollo::client::windowed::{Halt, WindowClient};
use libapollo::digest::Digest;
use libapollo::hash::do_hash;
use libapollo::stats::{emit_window_latency, statistics, LAT_WINDOW_SECS};
use libapollo::stress::{
    aggregate, box_line, build_matrix, extract_after, ip_file, BenchConfig, ClientWatch, Harness,
    Protocol, Stream,
};
use std::collections::VecDeque;

fn config(protocol: Protocol) -> BenchConfig {
    BenchConfig {
        protocol,
        num_nodes: 7,
        num_faults: 3,
        num_clients: 2,
        block_size: 400,
        payload: 0,
        total_txs: 50_000,
        window: 10_000,
    }
}

#[test]
fn matrix_has_two_sizes_per_protocol() {
    let all = build_matrix(None, None);
    assert_eq!(all.len(), 8);
    assert_eq!(all[0].protocol, Protocol::Apollo);
    assert_eq!((all[0].num_nodes, all[0].num_faults), (3, 1));
    assert_eq!((all[1].num_nodes, all[1].num_faults), (7, 3));
    assert_eq!(all[7].protocol, Protocol::Optsync);
    assert_eq!(all[7].num_clients, 1);
    assert_eq!(all[7].total_txs, 50_000);
    assert_eq!(all[7].window, 10_000);
    assert_eq!(all[7].block_size, 400);
    let one = build_matrix(Some("synchs"), Some("4"));
    assert_eq!(one.len(), 2);
    assert_eq!(one[1].protocol, Protocol::Synchs);
    assert_eq!(one[1].num_clients, 4);
    assert_eq!(build_matrix(Some("other"), Some("0"))[0].num_clients, 1);
    assert_eq!(build_matrix(Some("artemis"), Some("many")).len(), 2);
    assert!(all.iter().all(|c| 2 * c.num_faults < c.num_nodes));
}

#[test]
fn ports_of_runs_do_not_overlap() {
    let mut h = Harness::new();
    let a = h.alloc_ports();
    let b = h.alloc_ports();
    assert_eq!((a.base, a.cli_base, a.mempool_base, a.client_listen), (21000, 21100, 21200, 21275));
    assert_eq!(b.base, 21300);
    assert_eq!(h.run_idx, 2);
}

#[test]
fn run_is_planned() {
    let mut h = Harness::new();
    let cfg = config(Protocol::Apollo);
    let p = h.run(&cfg);
    assert_eq!(p.dir, "apollo-n7-c2-b400-p0-21000");
    assert_eq!(
        p.genconfig.join(" "),
        "-n 7 -f 3 -d 50 --blocksize 400 --base_port 21000 --client_base_port 21100 \
         --mempool_base_port 21200 --client_listen_port 21275 --num_clients 2 --payload 0 --target"
    );
    assert_eq!(p.bootstrap_secs, 12);
    assert!(p.ip_file.starts_with("127.0.0.1:21000\n127.0.0.1:21001\n"));
    assert!(p.cli_ip_file.ends_with("127.0.0.1:21106\n"));
    assert_eq!(ip_file(0, 5), "");
    assert_eq!(ip_file(2, 65535), "127.0.0.1:65535\n127.0.0.1:65536\n");
}

#[test]
fn arguments_of_nodes_and_clients() {
    let a = config(Protocol::Artemis).spawn_node("c.json", "ips");
    assert_eq!(a.join(" "), "-c c.json -i ips --sleep 12 --delta 50 -s");
    let s = config(Protocol::Synchs).spawn_node("c.json", "ips");
    assert_eq!(s.join(" "), "-c c.json -i ips --sleep 12 --delta 50");
    let c = config(Protocol::Synchs).spawn_client("c.json", "ips");
    assert_eq!(c.join(" "), "-c c.json -i ips -m 50000 -w 10000");
}

#[test]
fn names_of_protocols() {
    assert_eq!(Protocol::Synchs.label(), "Sync HotStuff");
    assert_eq!(Protocol::Optsync.label(), "Opt Sync");
    assert_eq!(Protocol::Optsync.short(), "optsync");
    assert!(!Protocol::Optsync.wants_special_client());
    assert_eq!(Protocol::bootstrap_secs(1), 8);
    assert_eq!(Protocol::bootstrap_secs(3), 8);
    assert_eq!(Protocol::bootstrap_secs(4), 9);
    assert_eq!(
        config(Protocol::Apollo).header(),
        "│ Apollo (n=7, f=3, clients=2, blk=400, payload=0B, window=10000, txs/cli=50000)"
    );
    assert_eq!(box_line(), "─".repeat(63));
}

#[test]
fn last_report_counts_and_latency_is_owed() {
    let mut w: ClientWatch<u32> = ClientWatch::new();
    assert!(w.reads(Stream::Stderr));
    w.on_line(Some(1), None);
    w.on_line(None, Some(2));
    w.on_line(None, None);
    w.on_line(Some(3), None);
    w.on_end(Stream::Stderr);
    assert!(!w.reads(Stream::Stderr));
    assert!(w.reads(Stream::Stdout));
    assert!(!w.finished());
    w.on_line(None, Some(4));
    w.on_end(Stream::Stdout);
    assert!(w.finished());
    assert_eq!(w.outcome(), Some((Some(3), 4)));
    let mut silent: ClientWatch<u32> = ClientWatch::new();
    silent.on_line(Some(1), None);
    assert_eq!(silent.outcome(), None);
}

#[test]
fn reports_are_found_in_lines() {
    let line = "INFO DP[Throughput]: 12.5 \n";
    assert_eq!(extract_after(line, "DP[Throughput]: "), Some("12.5".to_string()));
    assert_eq!(extract_after(line, "DP[Latency]: "), None);
}

#[test]
fn first_failure_is_reported() {
    let all: Result<Vec<u8>, (usize, &str)> = aggregate(VecDeque::from(vec![Ok(1), Ok(2)]));
    assert_eq!(all, Ok(vec![1, 2]));
    let failed: Result<Vec<u8>, (usize, &str)> =
        aggregate(VecDeque::from(vec![Ok(1), Err("x"), Ok(2), Err("y")]));
    assert_eq!(failed, Err((1, "x")));
}

#[test]
fn median_of_a_window() {
    assert_eq!(LAT_WINDOW_SECS, 1);
    let mut none: Vec<u128> = vec![];
    assert_eq!(emit_window_latency(&mut none), None);
    let mut odd: Vec<u128> = vec![9, 1, 5];
    assert_eq!(emit_window_latency(&mut odd), Some(5));
    assert!(odd.is_empty());
    let mut even: Vec<u128> = vec![4, 1, 10, 7];
    assert_eq!(emit_window_latency(&mut even), Some(5));
}

fn digest(n: u128) -> Digest {
    Digest { hi: 0, lo: n }
}

#[test]
fn keyed_client_confirms_each_transaction_once() {
    assert_eq!(burst_of_window(0), (1, 100));
    assert_eq!(burst_of_window(9), (9, 100));
    let mut c = KeyedClient::new(3, 2);
    assert_eq!(c.next_burst(), vec![1, 2]);
    assert_eq!(c.next_burst(), vec![3, 4]);
    c.note_sent(&vec![b"x".to_vec(), b"y".to_vec()], 1_000_000);
    assert!(!c.done(2));
    c.on_confirmation(do_hash(b"x"), 6_500_000);
    c.on_confirmation(do_hash(b"x"), 9_000_000);
    c.on_confirmation(do_hash(b"z"), 9_000_000);
    assert!(c.done(1));
    assert!(!c.done(2));
    c.on_confirmation(do_hash(b"y"), 500_000);
    assert!(c.done(2));
    assert_eq!(c.take_samples(), vec![5, 0]);
    assert_eq!(c.take_samples(), Vec::<u128>::new());
    assert_eq!(c.latencies().keys().len(), 2);
}

#[test]
fn mean_latency_counts_whole_milliseconds() {
    let mut c = KeyedClient::new(3, 1);
    c.note_sent(&vec![b"x".to_vec(), b"y".to_vec()], 1_000_000);
    c.on_confirmation(do_hash(b"x"), 6_500_000);
    c.on_confirmation(do_hash(b"y"), 3_000_000);
    assert_eq!(statistics(c.latencies()), (2, 7));
}

#[test]
fn window_client_needs_more_nodes_than_faults() {
    let mut c = WindowClient::new(2, 1, 2);
    assert!(c.can_send());
    c.note_sent(digest(1), 10);
    c.note_sent(digest(2), 20);
    assert!(!c.can_send());
    let txs = vec![digest(1), digest(2), digest(9)];
    assert_eq!(c.on_block(digest(50), &txs, 100), Ok(false));
    assert_eq!(c.on_block(digest(50), &txs, 200), Ok(true));
    assert_eq!(c.on_block(digest(50), &txs, 300), Ok(false));
    assert!(c.can_send());
    assert!(c.done(1));
    assert!(!c.done(2));
    assert_eq!(c.latencies().get(digest(2)), Some(&(20, 200)));
}

#[test]
fn more_strangers_than_transactions_are_a_miscount() {
    let mut c = WindowClient::new(2, 0, 1);
    assert_eq!(
        c.on_block(digest(50), &vec![digest(1), digest(2)], 100),
        Err(Halt::Miscount)
    );
}
