//! Configurations for all the nodes and clients of a network on one machine.

use crate::config::client::Client;
use crate::config::node::Node;
use crate::config::{Algorithm, ParseError};
use crate::fnv_map::FnvMap;
use crate::mempool::tx::Replica;
use crate::text::{comma_list, decimal, loopback, loopback_address, push_decimal, same_text,
    split_commas, views};
use vstd::prelude::*;

verus! {

/// What the network is to be like.
pub struct Plan {
    pub num_nodes: usize,
    pub num_faults: usize,
    pub delay: u64,
    pub block_size: usize,
    pub payload: usize,
    pub crypto_alg: Algorithm,
    /// The port of node 0 for the other nodes; the next nodes have the next ports, here and
    /// below.
    pub base_port: u16,
    /// The port of node 0 for clients.
    pub client_base_port: u16,
    /// The port of node 0 for the others' mempools.
    pub mempool_base_port: u16,
    /// The port of client 0 for messages of the nodes.
    pub client_listen_port: u16,
}

/// What identifies one node: its keys, and where the certificate chain and its key are.
pub struct NodeIdentity {
    pub public_key: Vec<u8>,
    pub secret_key: Vec<u8>,
    pub cert_path: String,
    pub cert_key_path: String,
}

/// What identifies one client: where the certificate chain and its key are.
pub struct ClientIdentity {
    pub cert_path: String,
    pub cert_key_path: String,
}

impl Plan {
    /// Whether every node and client has a port for each purpose.
    pub open spec fn fits(&self, num_clients: nat) -> bool {
        &&& self.base_port + self.num_nodes <= 65536
        &&& self.client_base_port + self.num_nodes <= 65536
        &&& self.mempool_base_port + self.num_nodes <= 65536
        &&& self.client_listen_port + num_clients <= 65536
    }

    /// Whether every node and client has a port for each purpose.
    pub fn has_ports(&self, num_clients: usize) -> (r: bool)
        ensures
            r == self.fits(num_clients as nat),
    {
        self.num_nodes <= 65536 - self.base_port as usize && self.num_nodes <= 65536
            - self.client_base_port as usize && self.num_nodes <= 65536
            - self.mempool_base_port as usize && num_clients <= 65536
            - self.client_listen_port as usize
    }
}

/// Whether a table has the addresses of this many, one port after the other.
pub open spec fn is_address_table(m: Map<u16, String>, n: nat, port: nat) -> bool {
    &&& forall|r: u16| #[trigger] m.contains_key(r) <==> r < n
    &&& forall|r: u16| r < n ==> (#[trigger] m[r])@ == loopback(port + r as nat)
}

/// Whether a table has the public key of each node. There are no keys for RSA.
pub open spec fn is_key_table(
    m: Map<Replica, Vec<u8>>,
    alg: Algorithm,
    ids: Seq<NodeIdentity>,
) -> bool {
    &&& forall|r: Replica| #[trigger]
        m.contains_key(r) <==> alg != Algorithm::RSA && r < ids.len()
    &&& forall|r: Replica|
        m.contains_key(r) ==> (#[trigger] m[r])@ == ids[r as int].public_key@
}

/// Whether this is the configuration of node `i`.
pub open spec fn is_node(
    node: Node,
    plan: Plan,
    ids: Seq<NodeIdentity>,
    num_clients: nat,
    root_cert_path: Seq<char>,
    i: int,
) -> bool {
    &&& node.id == i
    &&& node.delta == plan.delay
    &&& node.num_nodes == plan.num_nodes
    &&& node.num_faults == plan.num_faults
    &&& node.block_size == plan.block_size
    &&& node.payload == plan.payload
    &&& node.client_port == plan.client_base_port + i
    &&& node.mempool_port == plan.mempool_base_port + i
    &&& node.crypto_alg == plan.crypto_alg
    &&& node.bench_emit_window_secs == 5
    &&& node.bench_metrics_node == 0
    &&& is_address_table(node.net_map@, plan.num_nodes as nat, plan.base_port as nat)
    &&& is_address_table(
        node.mempool_net_map@,
        plan.num_nodes as nat,
        plan.mempool_base_port as nat,
    )
    &&& is_address_table(node.client_net_map@, num_clients, plan.client_listen_port as nat)
    &&& is_key_table(node.pk_map@, plan.crypto_alg, ids)
    &&& node.secret_key_bytes@ == (if plan.crypto_alg == Algorithm::RSA {
        Seq::empty()
    } else {
        ids[i].secret_key@
    })
    &&& node.my_cert_path@ == ids[i].cert_path@
    &&& node.my_cert_key_path@ == ids[i].cert_key_path@
    &&& node.root_cert_path@ == root_cert_path
}

/// Whether this is the configuration of client `j`.
pub open spec fn is_client(
    client: Client,
    plan: Plan,
    ids: Seq<NodeIdentity>,
    who: ClientIdentity,
    root_cert_path: Seq<char>,
    j: int,
) -> bool {
    &&& client.my_id == j
    &&& client.my_listen_addr@ == loopback((plan.client_listen_port + j) as nat)
    &&& client.num_nodes == plan.num_nodes
    &&& client.num_faults == plan.num_faults
    &&& client.block_size == plan.block_size
    &&& client.payload == 0
    &&& client.crypto_alg == plan.crypto_alg
    &&& is_address_table(client.net_map@, plan.num_nodes as nat, plan.client_base_port as nat)
    &&& is_key_table(client.server_pk@, plan.crypto_alg, ids)
    &&& client.my_cert_path@ == who.cert_path@
    &&& client.my_cert_key_path@ == who.cert_key_path@
    &&& client.root_cert_path@ == root_cert_path
}

/// The addresses of this many, one port after the other.
fn address_table(n: usize, port: u16) -> (m: FnvMap<u16, String>)
    requires
        port + n <= 65536,
    ensures
        is_address_table(m@, n as nat, port as nat),
{
    let mut m: FnvMap<u16, String> = FnvMap::new();
    let mut i: usize = 0;
    while i < n
        invariant
            i <= n,
            port + n <= 65536,
            is_address_table(m@, i as nat, port as nat),
        decreases n - i,
    {
        m.insert(i as u16, loopback_address(port + i as u16));
        i = i + 1;
    }
    m
}

/// The public key of each node.
fn key_table(alg: Algorithm, ids: &Vec<NodeIdentity>) -> (m: FnvMap<Replica, Vec<u8>>)
    requires
        ids@.len() <= 65536,
    ensures
        is_key_table(m@, alg, ids@),
{
    let mut m: FnvMap<Replica, Vec<u8>> = FnvMap::new();
    match alg {
        Algorithm::RSA => {
            return m;
        },
        _ => {},
    }
    let mut i: usize = 0;
    while i < ids.len()
        invariant
            i <= ids@.len() <= 65536,
            alg != Algorithm::RSA,
            is_key_table(m@, alg, ids@.take(i as int)),
        decreases ids@.len() - i,
    {
        let k = ids[i].public_key.clone();
        assert(k@ =~= ids@[i as int].public_key@);
        m.insert(i as u16, k);
        i = i + 1;
    }
    assert(ids@.take(i as int) =~= ids@);
    m
}

/// The configuration of node `i`.
fn node_config(
    plan: &Plan,
    ids: &Vec<NodeIdentity>,
    num_clients: usize,
    root_cert_path: &String,
    i: usize,
) -> (node: Node)
    requires
        plan.fits(num_clients as nat),
        ids@.len() == plan.num_nodes,
        i < ids@.len(),
    ensures
        is_node(node, *plan, ids@, num_clients as nat, root_cert_path@, i as int),
{
    let mut node = Node::new();
    node.delta = plan.delay;
    node.id = i as u16;
    node.num_nodes = plan.num_nodes;
    node.num_faults = plan.num_faults;
    node.block_size = plan.block_size;
    node.payload = plan.payload;
    node.client_port = plan.client_base_port + i as u16;
    node.mempool_port = plan.mempool_base_port + i as u16;
    node.crypto_alg = plan.crypto_alg;
    match plan.crypto_alg {
        Algorithm::RSA => {},
        _ => {
            let k = ids[i].secret_key.clone();
            assert(k@ =~= ids@[i as int].secret_key@);
            node.secret_key_bytes = k;
        },
    }
    node.pk_map = key_table(plan.crypto_alg, ids);
    node.net_map = address_table(plan.num_nodes, plan.base_port);
    node.mempool_net_map = address_table(plan.num_nodes, plan.mempool_base_port);
    node.client_net_map = address_table(num_clients, plan.client_listen_port);
    node.root_cert_path = root_cert_path.clone();
    node.my_cert_path = ids[i].cert_path.clone();
    node.my_cert_key_path = ids[i].cert_key_path.clone();
    assert(plan.crypto_alg == Algorithm::RSA ==> node.secret_key_bytes@ =~= Seq::empty());
    node
}

/// The configuration of client `j`.
fn client_config(
    plan: &Plan,
    ids: &Vec<NodeIdentity>,
    who: &ClientIdentity,
    root_cert_path: &String,
    j: usize,
) -> (client: Client)
    requires
        plan.fits(j as nat + 1),
        ids@.len() == plan.num_nodes,
    ensures
        is_client(client, *plan, ids@, *who, root_cert_path@, j as int),
{
    let mut client = Client::new();
    client.block_size = plan.block_size;
    client.crypto_alg = plan.crypto_alg;
    client.num_nodes = plan.num_nodes;
    client.num_faults = plan.num_faults;
    client.net_map = address_table(plan.num_nodes, plan.client_base_port);
    client.server_pk = key_table(plan.crypto_alg, ids);
    client.my_id = j as u16;
    client.my_listen_addr = loopback_address(plan.client_listen_port + j as u16);
    client.my_cert_path = who.cert_path.clone();
    client.my_cert_key_path = who.cert_key_path.clone();
    client.root_cert_path = root_cert_path.clone();
    client
}

/// The configurations of all the nodes and of all the clients.
pub fn generate(
    plan: &Plan,
    ids: &Vec<NodeIdentity>,
    clients: &Vec<ClientIdentity>,
    root_cert_path: &String,
) -> (r: (Vec<Node>, Vec<Client>))
    requires
        plan.fits(clients@.len()),
        ids@.len() == plan.num_nodes,
    ensures
        r.0@.len() == plan.num_nodes,
        r.1@.len() == clients@.len(),
        forall|i: int|
            0 <= i < r.0@.len() ==> is_node(
                #[trigger] r.0@[i],
                *plan,
                ids@,
                clients@.len(),
                root_cert_path@,
                i,
            ),
        forall|j: int|
            0 <= j < r.1@.len() ==> is_client(
                #[trigger] r.1@[j],
                *plan,
                ids@,
                clients@[j],
                root_cert_path@,
                j,
            ),
{
    let mut nodes: Vec<Node> = Vec::new();
    let mut i: usize = 0;
    while i < ids.len()
        invariant
            i <= ids@.len(),
            plan.fits(clients@.len()),
            ids@.len() == plan.num_nodes,
            nodes@.len() == i,
            forall|k: int|
                0 <= k < i ==> is_node(
                    #[trigger] nodes@[k],
                    *plan,
                    ids@,
                    clients@.len(),
                    root_cert_path@,
                    k,
                ),
        decreases ids@.len() - i,
    {
        nodes.push(node_config(plan, ids, clients.len(), root_cert_path, i));
        i = i + 1;
    }
    let mut configs: Vec<Client> = Vec::new();
    let mut j: usize = 0;
    while j < clients.len()
        invariant
            j <= clients@.len(),
            plan.fits(clients@.len()),
            ids@.len() == plan.num_nodes,
            configs@.len() == j,
            forall|k: int|
                0 <= k < j ==> is_client(
                    #[trigger] configs@[k],
                    *plan,
                    ids@,
                    clients@[k],
                    root_cert_path@,
                    k,
                ),
        decreases clients@.len() - j,
    {
        configs.push(client_config(plan, ids, &clients[j], root_cert_path, j));
        j = j + 1;
    }
    (nodes, configs)
}

/// How many faults a network is planned for unless the plan says: as many as it can have.
pub fn default_faults(num_nodes: usize) -> (f: usize)
    requires
        num_nodes > 0,
    ensures
        f == (num_nodes - 1) / 2,
{
    (num_nodes - 1) / 2
}

/// The addresses in a list with commas between them; none if there is no list.
pub fn parse_ip_list(spec: Option<&str>) -> (r: Vec<String>)
    ensures
        views(r@) == match spec {
            Some(s) => comma_list(s@),
            None => Seq::empty(),
        },
{
    match spec {
        Some(s) => split_commas(s),
        None => {
            let r: Vec<String> = Vec::new();
            assert(views(r@) =~= Seq::empty());
            r
        },
    }
}

/// How a configuration is written to a file.
#[derive(Debug, Clone, Copy, PartialEq, Eq, Structural)]
pub enum Format {
    Json,
    Binary,
    Toml,
    Yaml,
}

impl Format {
    /// What a format is asked for by.
    pub open spec fn name(self) -> Seq<char> {
        match self {
            Format::Json => "json"@,
            Format::Binary => "binary"@,
            Format::Toml => "toml"@,
            Format::Yaml => "yaml"@,
        }
    }

    /// What the name of a file in a format ends in when it is written.
    pub open spec fn suffix(self) -> Seq<char> {
        match self {
            Format::Json => ".json"@,
            Format::Binary => ".dat"@,
            Format::Toml => ".toml"@,
            Format::Yaml => ".yml"@,
        }
    }

    /// The extension by which a file in a format is known when it is read.
    pub open spec fn read_extension(self) -> Seq<char> {
        match self {
            Format::Json => "json"@,
            Format::Binary => "dat"@,
            Format::Toml => "toml"@,
            Format::Yaml => "yaml"@,
        }
    }

    /// The format that is asked for by a name, if there is one.
    pub fn from_name(s: &str) -> (r: Option<Format>)
        ensures
            match r {
                Some(f) => f.name() == s@,
                None => forall|f: Format| #[trigger] f.name() != s@,
            },
    {
        if same_text(s, "json") {
            Some(Format::Json)
        } else if same_text(s, "binary") {
            Some(Format::Binary)
        } else if same_text(s, "toml") {
            Some(Format::Toml)
        } else if same_text(s, "yaml") {
            Some(Format::Yaml)
        } else {
            None
        }
    }

    /// The format that a file with an extension is read in, if there is one.
    pub fn from_extension(s: &str) -> (r: Option<Format>)
        ensures
            match r {
                Some(f) => f.read_extension() == s@,
                None => forall|f: Format| #[trigger] f.read_extension() != s@,
            },
    {
        if same_text(s, "json") {
            Some(Format::Json)
        } else if same_text(s, "dat") {
            Some(Format::Binary)
        } else if same_text(s, "toml") {
            Some(Format::Toml)
        } else if same_text(s, "yaml") {
            Some(Format::Yaml)
        } else {
            None
        }
    }

    /// What the name of a file in this format ends in when it is written.
    pub fn file_suffix(self) -> (s: &'static str)
        ensures
            s@ == self.suffix(),
    {
        match self {
            Format::Json => ".json",
            Format::Binary => ".dat",
            Format::Toml => ".toml",
            Format::Yaml => ".yml",
        }
    }
}

/// The name of a file that belongs to one of many.
pub open spec fn numbered(stem: Seq<char>, i: nat, suffix: Seq<char>) -> Seq<char> {
    stem + decimal(i) + suffix
}

/// The name of a file that belongs to one of many.
fn numbered_name(stem: &str, i: usize, suffix: &str) -> (s: String)
    ensures
        s@ == numbered(stem@, i as nat, suffix@),
{
    let mut s = stem.to_owned();
    push_decimal(&mut s, i as u64);
    s.append(suffix);
    s
}

/// The file with the configuration of node `i`.
pub fn node_file(i: usize, format: Format) -> (s: String)
    ensures
        s@ == numbered("nodes-"@, i as nat, format.suffix()),
{
    numbered_name("nodes-", i, format.file_suffix())
}

/// The file with the configuration of client `j`.
pub fn client_file(j: usize, format: Format) -> (s: String)
    ensures
        s@ == numbered("client-"@, j as nat, format.suffix()),
{
    numbered_name("client-", j, format.file_suffix())
}

/// The file with the configuration of the first client, for those who know of only one.
pub fn sole_client_file(format: Format) -> (s: String)
    ensures
        s@ == "client"@ + format.suffix(),
{
    let mut s = "client".to_owned();
    s.append(format.file_suffix());
    s
}

/// The files with the certificate chain of node `i` and with its key.
pub fn node_cert_files(i: usize) -> (r: (String, String))
    ensures
        r.0@ == numbered("node-"@, i as nat, ".chain.pem"@),
        r.1@ == numbered("node-"@, i as nat, ".key.pem"@),
{
    (numbered_name("node-", i, ".chain.pem"), numbered_name("node-", i, ".key.pem"))
}

/// The files with the certificate chain of client `j` and with its key.
pub fn client_cert_files(j: usize) -> (r: (String, String))
    ensures
        r.0@ == numbered("client-"@, j as nat, ".chain.pem"@),
        r.1@ == numbered("client-"@, j as nat, ".key.pem"@),
{
    (numbered_name("client-", j, ".chain.pem"), numbered_name("client-", j, ".key.pem"))
}

/// There are as many ids below a number as the number says.
proof fn lemma_ids_below(ids: Set<u16>, n: nat)
    requires
        n <= 65536,
        forall|r: u16| #[trigger] ids.contains(r) <==> r < n,
    ensures
        ids.finite(),
        ids.len() == n,
    decreases n,
{
    if n == 0 {
        assert(ids =~= Set::empty());
    } else {
        let last = (n - 1) as u16;
        let fewer = ids.remove(last);
        lemma_ids_below(fewer, (n - 1) as nat);
        assert(ids =~= fewer.insert(last));
    }
}

/// A network that can have its faults, with an algorithm that can be used and with keys, gets
/// configurations that nothing is wrong with.
pub proof fn law_generated_is_valid(
    plan: Plan,
    ids: Seq<NodeIdentity>,
    num_clients: nat,
    who: ClientIdentity,
    root_cert_path: Seq<char>,
    node: Node,
    i: int,
    client: Client,
    j: int,
    node_verdict: Result<(), ParseError>,
    client_verdict: Result<(), ParseError>,
)
    requires
        plan.fits(num_clients),
        ids.len() == plan.num_nodes,
        0 <= i < ids.len(),
        is_node(node, plan, ids, num_clients, root_cert_path, i),
        is_client(client, plan, ids, who, root_cert_path, j),
        2 * plan.num_faults < plan.num_nodes,
        plan.crypto_alg != Algorithm::RSA,
        forall|k: int|
            0 <= k < ids.len() ==> (#[trigger] ids[k]).public_key@.len() > 0
                && ids[k].secret_key@.len() > 0,
        node.verdict(node_verdict),
        client.verdict(client_verdict),
    ensures
        node_verdict is Ok,
        client_verdict is Ok,
{
    let n = plan.num_nodes as nat;
    assert forall|r: u16| #[trigger] node.net_map@.dom().contains(r) <==> r < n by {
        assert(node.net_map@.contains_key(r) <==> r < n);
    }
    assert forall|r: u16| #[trigger] client.net_map@.dom().contains(r) <==> r < n by {
        assert(client.net_map@.contains_key(r) <==> r < n);
    }
    lemma_ids_below(node.net_map@.dom(), n);
    lemma_ids_below(client.net_map@.dom(), n);
    assert forall|r: Replica| #[trigger] node.pk_map@.contains_key(r) implies node.pk_map@[r]@.len()
        > 0 by {
        assert(node.pk_map@[r]@ == ids[r as int].public_key@);
    }
    assert forall|r: Replica| #[trigger]
        client.server_pk@.contains_key(r) implies client.server_pk@[r]@.len() > 0 by {
        assert(client.server_pk@[r]@ == ids[r as int].public_key@);
    }
}

/// Two nodes never listen at the same port for the same purpose, and each node's address in
/// everyone's table is the one that it listens at.
pub proof fn law_ports_are_distinct(
    plan: Plan,
    ids: Seq<NodeIdentity>,
    num_clients: nat,
    root_cert_path: Seq<char>,
    a: Node,
    i: int,
    b: Node,
    j: int,
)
    requires
        plan.fits(num_clients),
        ids.len() == plan.num_nodes,
        0 <= i < ids.len(),
        0 <= j < ids.len(),
        is_node(a, plan, ids, num_clients, root_cert_path, i),
        is_node(b, plan, ids, num_clients, root_cert_path, j),
    ensures
        i != j ==> a.client_port != b.client_port && a.mempool_port != b.mempool_port,
        b.mempool_net_map@.contains_key(a.id),
        b.mempool_net_map@[a.id]@ == loopback(a.mempool_port as nat),
        b.net_map@.contains_key(a.id),
        b.net_map@[a.id]@ == a.net_map@[a.id]@,
{
}

/// Every client finds every node where it listens for clients, and every node finds every client
/// where it listens for nodes; both know the same keys, sizes and faults.
pub proof fn law_nodes_and_clients_meet(
    plan: Plan,
    ids: Seq<NodeIdentity>,
    num_clients: nat,
    who: ClientIdentity,
    root_cert_path: Seq<char>,
    node: Node,
    i: int,
    client: Client,
    j: int,
)
    requires
        plan.fits(num_clients),
        ids.len() == plan.num_nodes,
        0 <= i < ids.len(),
        0 <= j < num_clients,
        is_node(node, plan, ids, num_clients, root_cert_path, i),
        is_client(client, plan, ids, who, root_cert_path, j),
    ensures
        node.id == i,
        client.my_id == j,
        client.net_map@.contains_key(node.id),
        client.net_map@[node.id]@ == loopback(node.client_port as nat),
        node.client_net_map@.contains_key(client.my_id),
        node.client_net_map@[client.my_id]@ == client.my_listen_addr@,
        node.client_port == plan.client_base_port + i,
        node.mempool_port == plan.mempool_base_port + i,
        client.my_listen_addr@ == loopback((plan.client_listen_port + j) as nat),
        node.net_map@[node.id]@ == loopback((plan.base_port + i) as nat),
        node.num_nodes == client.num_nodes == plan.num_nodes,
        node.num_faults == client.num_faults == plan.num_faults,
        node.block_size == client.block_size == plan.block_size,
        node.crypto_alg == client.crypto_alg && client.crypto_alg == plan.crypto_alg,
        node.payload == plan.payload,
        client.payload == 0,
        node.delta == plan.delay,
        node.bench_metrics_node == 0,
        node.bench_emit_window_secs == 5,
        plan.crypto_alg != Algorithm::RSA ==> {
            &&& client.server_pk@.contains_key(node.id)
            &&& client.server_pk@[node.id]@ == ids[i].public_key@
            &&& node.pk_map@.contains_key(node.id)
            &&& node.pk_map@[node.id]@ == ids[i].public_key@
            &&& node.secret_key_bytes@ == ids[i].secret_key@
        },
        plan.crypto_alg == Algorithm::RSA ==> node.secret_key_bytes@.len() == 0
            && node.pk_map@.dom() == Set::<Replica>::empty(),
        node.my_cert_path@ == ids[i].cert_path@,
        node.my_cert_key_path@ == ids[i].cert_key_path@,
        client.my_cert_path@ == who.cert_path@,
        client.my_cert_key_path@ == who.cert_key_path@,
        node.root_cert_path@ == root_cert_path,
        client.root_cert_path@ == root_cert_path,
{
    if plan.crypto_alg == Algorithm::RSA {
        assert forall|r: Replica| !node.pk_map@.dom().contains(r) by {
            assert(!node.pk_map@.contains_key(r));
        }
        assert(node.pk_map@.dom() =~= Set::<Replica>::empty());
    }
}

/// What is written in a format is known again by its extension, but for YAML, which is written with
/// a shorter one; and no two formats share a name, an ending or an extension.
pub proof fn law_formats_are_told_apart(a: Format, b: Format)
    ensures
        a != Format::Yaml ==> a.suffix() == seq!['.'] + a.read_extension(),
        Format::Yaml.suffix() == seq!['.', 'y', 'm', 'l'],
        a.name() == b.name() ==> a == b,
        a.suffix() == b.suffix() ==> a == b,
        a.read_extension() == b.read_extension() ==> a == b,
        a != Format::Binary ==> a.read_extension() == a.name(),
        Format::Binary.read_extension() == seq!['d', 'a', 't'],
{
    reveal_strlit("json");
    reveal_strlit("binary");
    reveal_strlit("toml");
    reveal_strlit("yaml");
    reveal_strlit("dat");
    reveal_strlit(".json");
    reveal_strlit(".dat");
    reveal_strlit(".toml");
    reveal_strlit(".yml");
    assert("json"@[0] != "binary"@[0] && "json"@[0] != "toml"@[0] && "json"@[0] != "yaml"@[0]);
    assert("binary"@[0] != "toml"@[0] && "binary"@[0] != "yaml"@[0] && "toml"@[0] != "yaml"@[0]);
    assert("dat"@[0] != "json"@[0] && "dat"@[0] != "toml"@[0] && "dat"@[0] != "yaml"@[0]);
    assert(".json"@[1] != ".dat"@[1] && ".json"@[1] != ".toml"@[1] && ".json"@[1] != ".yml"@[1]);
    assert(".dat"@[1] != ".toml"@[1] && ".dat"@[1] != ".yml"@[1] && ".toml"@[1] != ".yml"@[1]);
    assert(".json"@ =~= seq!['.'] + "json"@);
    assert(".dat"@ =~= seq!['.'] + "dat"@);
    assert(".toml"@ =~= seq!['.'] + "toml"@);
    assert(".yml"@ =~= seq!['.', 'y', 'm', 'l']);
    assert("dat"@ =~= seq!['d', 'a', 't']);
}

/// The files of two of many have different names.
pub proof fn law_files_are_told_apart(stem: Seq<char>, i: nat, j: nat, suffix: Seq<char>)
    ensures
        numbered(stem, i, suffix) == stem + decimal(i) + suffix,
        numbered(stem, i, suffix) == numbered(stem, j, suffix) ==> i == j,
{
    if numbered(stem, i, suffix) == numbered(stem, j, suffix) {
        let a = numbered(stem, i, suffix);
        let b = numbered(stem, j, suffix);
        let n = a.len() - suffix.len();
        assert(a.subrange(stem.len() as int, n) =~= decimal(i));
        assert(b.subrange(stem.len() as int, n) =~= decimal(j));
        crate::text::law_decimal_round_trip(i);
        crate::text::law_decimal_round_trip(j);
    }
}

} // verus!
