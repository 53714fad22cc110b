use libapollo::config::client::Client;
use libapollo::config::node::{default_bench_emit_window_secs, Node};
use libapollo::config::{is_valid_replica, peers_of, Algorithm, ParseError};
use libapollo::genconfig::{
    client_cert_files, client_file, default_faults, generate, node_cert_files, node_file,
    parse_ip_list, sole_client_file, ClientIdentity, Format, NodeIdentity, Plan,
};
use libapollo::text::{
    listen_address, loopback_address, parse_u16, port_of, push_decimal, same_text, split_commas,
    text_after, trim_between,
};

fn plan(n: usize, f: usize) -> Plan {
    Plan {
        num_nodes: n,
        num_faults: f,
        delay: 50,
        block_size: 400,
        payload: 3,
        crypto_alg: Algorithm::ED25519,
        base_port: 21000,
        client_base_port: 21100,
        mempool_base_port: 21200,
        client_listen_port: 21275,
    }
}

fn identities(n: usize) -> Vec<NodeIdentity> {
    (0..n)
        .map(|i| NodeIdentity {
            public_key: vec![i as u8 + 1],
            secret_key: vec![i as u8 + 101],
            cert_path: format!("/c/{}", i),
            cert_key_path: format!("/k/{}", i),
        })
        .collect()
}

fn clients(n: usize) -> Vec<ClientIdentity> {
    (0..n)
        .map(|j| ClientIdentity {
            cert_path: format!("/cc/{}", j),
            cert_key_path: format!("/ck/{}", j),
        })
        .collect()
}

#[test]
fn generated_configs_are_valid() {
    let (nodes, cs) = generate(&plan(3, 1), &identities(3), &clients(2), &"/root".to_string());
    assert_eq!(nodes.len(), 3);
    assert_eq!(cs.len(), 2);
    for n in &nodes {
        assert_eq!(n.validate(), Ok(()));
        assert_eq!(n.net_map.get(2).unwrap(), "127.0.0.1:21002");
        assert_eq!(n.mempool_net_map.get(0).unwrap(), "127.0.0.1:21200");
        assert_eq!(n.client_net_map.get(1).unwrap(), "127.0.0.1:21276");
        assert_eq!(n.pk_map.get(1).unwrap(), &vec![2]);
        assert_eq!(n.root_cert_path, "/root");
    }
    assert_eq!(nodes[1].id, 1);
    assert_eq!(nodes[1].delta, 50);
    assert_eq!(nodes[1].payload, 3);
    assert_eq!(nodes[1].block_size, 400);
    assert_eq!(nodes[1].client_port, 21101);
    assert_eq!(nodes[1].mempool_port, 21201);
    assert_eq!(nodes[1].secret_key_bytes, vec![102]);
    assert_eq!(nodes[1].my_cert_path, "/c/1");
    assert_eq!(nodes[1].my_cert_key_path, "/k/1");
    assert_eq!(cs[1].my_id, 1);
    assert_eq!(cs[1].my_listen_addr, "127.0.0.1:21276");
    assert_eq!(cs[1].net_map.get(2).unwrap(), "127.0.0.1:21102");
    assert_eq!(cs[1].my_cert_key_path, "/ck/1");
    assert_eq!(cs[1].validate(), Ok(()));
}

#[test]
fn too_many_faults_are_found_out() {
    let (nodes, cs) = generate(&plan(3, 2), &identities(3), &clients(1), &String::new());
    assert_eq!(nodes[0].validate(), Err(ParseError::IncorrectFaults(2, 3)));
    assert_eq!(cs[0].validate(), Err(ParseError::IncorrectFaults(2, 3)));
}

#[test]
fn there_are_no_keys_for_rsa() {
    let mut p = plan(3, 1);
    p.crypto_alg = Algorithm::RSA;
    let (nodes, cs) = generate(&p, &identities(3), &clients(1), &String::new());
    assert_eq!(nodes[0].pk_map.len(), 0);
    assert!(nodes[0].secret_key_bytes.is_empty());
    assert_eq!(nodes[0].validate(), Err(ParseError::Unimplemented(Algorithm::RSA)));
    assert_eq!(cs[0].validate(), Err(ParseError::Unimplemented(Algorithm::RSA)));
}

#[test]
fn ports_run_out() {
    let mut p = plan(3, 1);
    assert!(p.has_ports(1));
    p.mempool_base_port = 65533;
    assert!(p.has_ports(1));
    p.mempool_base_port = 65534;
    assert!(!p.has_ports(1));
    p.mempool_base_port = 1;
    p.client_listen_port = 65535;
    assert!(p.has_ports(1));
    assert!(!p.has_ports(2));
}

#[test]
fn validation_finds_what_is_wrong() {
    let (mut nodes, mut cs) = generate(&plan(3, 1), &identities(3), &clients(1), &String::new());
    let mut n = nodes.pop().unwrap();
    n.secret_key_bytes = vec![];
    assert_eq!(n.validate(), Err(ParseError::InvalidSkSize(0)));
    n.pk_map.insert(1, vec![]);
    assert_eq!(n.validate(), Err(ParseError::InvalidPkSize(0)));
    n.pk_map.remove(1);
    n.pk_map.insert(8, vec![1]);
    assert_eq!(n.validate(), Err(ParseError::InvalidMapEntry(8)));
    n.net_map.remove(0);
    assert_eq!(n.validate(), Err(ParseError::InvalidMapLen(3, 2)));
    n.net_map.insert(9, String::new());
    assert_eq!(n.validate(), Err(ParseError::InvalidMapEntry(9)));
    let mut c = cs.pop().unwrap();
    c.server_pk.insert(0, vec![]);
    assert_eq!(c.validate(), Err(ParseError::InvalidPkSize(0)));
    assert!(is_valid_replica(2, 3));
    assert!(!is_valid_replica(3, 3));
}

#[test]
fn defaults_of_a_node() {
    let n = Node::new();
    assert_eq!(n.delta, 50);
    assert_eq!(n.bench_emit_window_secs, default_bench_emit_window_secs());
    assert_eq!(default_bench_emit_window_secs(), 5);
    assert_eq!(n.crypto_alg, Algorithm::ED25519);
    assert_eq!(n.net_map.len(), 0);
    assert_eq!(Client::new().num_nodes, 0);
}

#[test]
fn own_address_listens_everywhere() {
    let mut n = Node::new();
    n.id = 1;
    n.net_map.insert(5, "x".to_string());
    n.update_config(vec!["10.0.0.1:7000".to_string(), "10.0.0.2:7001".to_string()]);
    assert_eq!(n.net_map.get(0).unwrap(), "10.0.0.1:7000");
    assert_eq!(n.my_ip(), "0.0.0.0:7001");
    assert_eq!(n.net_map.get(5).unwrap(), "x");
    let mut c = Client::new();
    c.update_config(vec!["a:1".to_string(), "b:2".to_string()]);
    assert_eq!(c.net_map.get(1).unwrap(), "b:2");
}

#[test]
fn addresses_names_and_waits_of_a_node() {
    let mut n = Node::new();
    n.client_port = 80;
    n.mempool_port = 65535;
    n.id = 12;
    n.num_nodes = 7;
    assert_eq!(n.client_ip(), "0.0.0.0:80");
    assert_eq!(n.mempool_ip(), "0.0.0.0:65535");
    assert_eq!(n.store_name(), "node-12.rocksdb");
    assert_eq!(n.startup_secs(None), 12);
    assert_eq!(n.startup_secs(Some(3)), 3);
    for r in 10u16..14 {
        n.net_map.insert(r, String::new());
    }
    let mut peers = n.peers();
    peers.sort();
    assert_eq!(peers, vec![10, 11, 13]);
    assert_eq!(peers_of(4, 2), vec![0, 1, 3]);
}

#[test]
fn formats_and_files() {
    assert_eq!(Format::from_name("json"), Some(Format::Json));
    assert_eq!(Format::from_name("binary"), Some(Format::Binary));
    assert_eq!(Format::from_name("dat"), None);
    assert_eq!(Format::from_extension("dat"), Some(Format::Binary));
    assert_eq!(Format::from_extension("yaml"), Some(Format::Yaml));
    assert_eq!(Format::from_extension("toml"), Some(Format::Toml));
    assert_eq!(Format::from_extension("yml"), None);
    assert_eq!(node_file(10, Format::Yaml), "nodes-10.yml");
    assert_eq!(client_file(0, Format::Json), "client-0.json");
    assert_eq!(sole_client_file(Format::Toml), "client.toml");
    assert_eq!(
        node_cert_files(3),
        ("node-3.chain.pem".to_string(), "node-3.key.pem".to_string())
    );
    assert_eq!(client_cert_files(0).0, "client-0.chain.pem");
    assert_eq!(default_faults(7), 3);
    assert_eq!(default_faults(4), 1);
    assert_eq!(default_faults(1), 0);
}

#[test]
fn ip_lists() {
    assert_eq!(parse_ip_list(None), Vec::<String>::new());
    assert_eq!(parse_ip_list(Some("")), Vec::<String>::new());
    assert_eq!(parse_ip_list(Some(" 10.0.0.1 ,,10.0.0.2, ")), vec!["10.0.0.1", "10.0.0.2"]);
    assert_eq!(split_commas("a b,\u{3000}c\t"), vec!["a b", "c"]);
}

#[test]
fn numbers_in_text() {
    for n in [0u64, 9, 10, 12345, u64::MAX] {
        let mut s = String::from("x");
        push_decimal(&mut s, n);
        assert_eq!(s, format!("x{}", n));
    }
    for s in ["0", "+7", "65535", "65536", "", "+", "-1", "1a", "00012", " 1", "99999999999"] {
        assert_eq!(parse_u16(s), s.parse::<u16>().ok());
    }
    assert_eq!(port_of("[::1]:8080"), Some(8080));
    assert_eq!(port_of("9"), Some(9));
    assert_eq!(port_of("host:"), None);
    assert_eq!(listen_address(9), "0.0.0.0:9");
    assert_eq!(loopback_address(9), "127.0.0.1:9");
}

#[test]
fn parts_of_text() {
    assert!(same_text("ab", "ab"));
    assert!(!same_text("ab", "ac"));
    assert!(!same_text("ab", "abc"));
    for c in 0u32..0x3100 {
        if let Some(c) = char::from_u32(c) {
            let s = c.to_string();
            assert_eq!(trim_between(&s, 0, 1), s.trim());
        }
    }
    assert_eq!(trim_between("  a b ", 1, 6), "a b");
    assert_eq!(text_after("x key: 12 ", "key: "), Some("12".to_string()));
    assert_eq!(text_after("key: 1 key: 2", "key: "), Some("1 key: 2".to_string()));
    assert_eq!(text_after("nothing", "key: "), None);
    assert_eq!(text_after("a", "abc"), None);
}
