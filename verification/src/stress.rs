//! The benchmark of all the protocols: which runs there are, what each run is started with, and
//! what is made of what its clients report.

use crate::text::{
    decimal, loopback, parse_u16, parsed, push_decimal, same_text, text_after, views,
};
use std::collections::VecDeque;
use vstd::prelude::*;

verus! {

/// A protocol to be measured.
#[derive(Debug, Clone, Copy, PartialEq, Eq, Structural)]
pub enum Protocol {
    Apollo,
    Artemis,
    Synchs,
    Optsync,
}

impl Protocol {
    /// What a protocol is called in the names of programs and files.
    pub open spec fn spec_short(self) -> Seq<char> {
        match self {
            Protocol::Apollo => "apollo"@,
            Protocol::Artemis => "artemis"@,
            Protocol::Synchs => "synchs"@,
            Protocol::Optsync => "optsync"@,
        }
    }

    /// What a protocol is called.
    pub open spec fn spec_label(self) -> Seq<char> {
        match self {
            Protocol::Apollo => "Apollo"@,
            Protocol::Artemis => "Artemis"@,
            Protocol::Synchs => "Sync HotStuff"@,
            Protocol::Optsync => "Opt Sync"@,
        }
    }

    /// Whether the leaders can show their proposals to the clients at once.
    pub open spec fn special_client(self) -> bool {
        self == Protocol::Apollo || self == Protocol::Artemis
    }

    /// What this protocol is called in the names of programs and files.
    pub fn short(&self) -> (s: &'static str)
        ensures
            s@ == self.spec_short(),
    {
        match self {
            Protocol::Apollo => "apollo",
            Protocol::Artemis => "artemis",
            Protocol::Synchs => "synchs",
            Protocol::Optsync => "optsync",
        }
    }

    /// What this protocol is called.
    pub fn label(&self) -> (s: &'static str)
        ensures
            s@ == self.spec_label(),
    {
        match self {
            Protocol::Apollo => "Apollo",
            Protocol::Artemis => "Artemis",
            Protocol::Synchs => "Sync HotStuff",
            Protocol::Optsync => "Opt Sync",
        }
    }

    /// How many seconds the nodes wait before they begin: more nodes need more time.
    pub fn bootstrap_secs(num_nodes: usize) -> (n: u64)
        requires
            num_nodes + 5 <= u64::MAX,
        ensures
            n == bootstrap(num_nodes as nat),
    {
        let n: u64 = num_nodes as u64;
        if n < 3 {
            8
        } else {
            5 + n
        }
    }

    /// Whether the clients are told of proposals at once. Told of commits only, a client of
    /// these protocols would wait for a round that no node has transactions left for.
    pub fn wants_special_client(&self) -> (r: bool)
        ensures
            r == self.special_client(),
    {
        match self {
            Protocol::Apollo => true,
            Protocol::Artemis => true,
            _ => false,
        }
    }
}

/// How many seconds the nodes wait before they begin.
pub open spec fn bootstrap(num_nodes: nat) -> nat {
    5 + if num_nodes < 3 {
        3
    } else {
        num_nodes
    }
}

/// One run of the benchmark.
#[derive(Debug, Clone, Copy, PartialEq, Eq, Structural)]
pub struct BenchConfig {
    pub protocol: Protocol,
    pub num_nodes: usize,
    pub num_faults: usize,
    pub num_clients: u16,
    pub block_size: usize,
    pub payload: usize,
    pub total_txs: u64,
    pub window: usize,
}

/// The ports of a run, each the first of its kind.
#[derive(Debug, Clone, Copy, PartialEq, Eq, Structural)]
pub struct Ports {
    /// Nodes to nodes.
    pub base: u16,
    /// Clients to nodes.
    pub cli_base: u16,
    /// Mempools to mempools.
    pub mempool_base: u16,
    /// Nodes to clients.
    pub client_listen: u16,
}

/// The ports of a run: each run has a block of its own.
pub open spec fn ports_of_run(idx: int) -> (int, int, int, int) {
    let base = 21000 + 300 * idx;
    (base, base + 100, base + 200, base + 275)
}

impl Ports {
    /// The ports as numbers.
    pub open spec fn numbers(self) -> (int, int, int, int) {
        (
            self.base as int,
            self.cli_base as int,
            self.mempool_base as int,
            self.client_listen as int,
        )
    }
}

/// Appends an argument.
fn push_arg(args: &mut Vec<String>, s: &str)
    ensures
        views(final(args)@) == views(old(args)@).push(s@),
{
    args.push(s.to_owned());
    assert(views(args@) =~= views(old(args)@).push(s@));
}

/// Appends a number as an argument.
fn push_number(args: &mut Vec<String>, n: u64)
    ensures
        views(final(args)@) == views(old(args)@).push(decimal(n as nat)),
{
    let mut s = String::new();
    push_decimal(&mut s, n);
    args.push(s);
    assert(s@ =~= decimal(n as nat));
    assert(views(args@) =~= views(old(args)@).push(decimal(n as nat)));
}

impl BenchConfig {
    /// The name of the directory of a run.
    pub open spec fn dir_name(self, base_port: nat) -> Seq<char> {
        self.protocol.spec_short() + "-n"@ + decimal(self.num_nodes as nat) + "-c"@ + decimal(
            self.num_clients as nat,
        ) + "-b"@ + decimal(self.block_size as nat) + "-p"@ + decimal(self.payload as nat) + "-"@
            + decimal(base_port)
    }

    /// The name of the directory of a run.
    pub fn run_dir(&self, base_port: u16) -> (s: String)
        ensures
            s@ == self.dir_name(base_port as nat),
    {
        let mut s = self.protocol.short().to_owned();
        s.append("-n");
        push_decimal(&mut s, self.num_nodes as u64);
        s.append("-c");
        push_decimal(&mut s, self.num_clients as u64);
        s.append("-b");
        push_decimal(&mut s, self.block_size as u64);
        s.append("-p");
        push_decimal(&mut s, self.payload as u64);
        s.append("-");
        push_decimal(&mut s, base_port as u64);
        s
    }

    /// What the configurations of a run are generated with, but for the directory.
    pub open spec fn generator_args(self, ports: Ports) -> Seq<Seq<char>> {
        seq![
            "-n"@,
            decimal(self.num_nodes as nat),
            "-f"@,
            decimal(self.num_faults as nat),
            "-d"@,
            "50"@,
            "--blocksize"@,
            decimal(self.block_size as nat),
            "--base_port"@,
            decimal(ports.base as nat),
            "--client_base_port"@,
            decimal(ports.cli_base as nat),
            "--mempool_base_port"@,
            decimal(ports.mempool_base as nat),
            "--client_listen_port"@,
            decimal(ports.client_listen as nat),
            "--num_clients"@,
            decimal(self.num_clients as nat),
            "--payload"@,
            decimal(self.payload as nat),
            "--target"@,
        ]
    }

    /// What the configurations of a run are generated with. The directory is to follow.
    pub fn genconfig(&self, ports: Ports) -> (args: Vec<String>)
        ensures
            views(args@) == self.generator_args(ports),
    {
        let mut args: Vec<String> = Vec::new();
        push_arg(&mut args, "-n");
        push_number(&mut args, self.num_nodes as u64);
        push_arg(&mut args, "-f");
        push_number(&mut args, self.num_faults as u64);
        push_arg(&mut args, "-d");
        push_arg(&mut args, "50");
        push_arg(&mut args, "--blocksize");
        push_number(&mut args, self.block_size as u64);
        push_arg(&mut args, "--base_port");
        push_number(&mut args, ports.base as u64);
        push_arg(&mut args, "--client_base_port");
        push_number(&mut args, ports.cli_base as u64);
        push_arg(&mut args, "--mempool_base_port");
        push_number(&mut args, ports.mempool_base as u64);
        push_arg(&mut args, "--client_listen_port");
        push_number(&mut args, ports.client_listen as u64);
        push_arg(&mut args, "--num_clients");
        push_number(&mut args, self.num_clients as u64);
        push_arg(&mut args, "--payload");
        push_number(&mut args, self.payload as u64);
        push_arg(&mut args, "--target");
        assert(views(args@) =~= self.generator_args(ports));
        args
    }

    /// What a node is started with.
    pub open spec fn spec_node_args(self, config: Seq<char>, ips: Seq<char>) -> Seq<Seq<char>> {
        let args = seq![
            "-c"@,
            config,
            "-i"@,
            ips,
            "--sleep"@,
            decimal(bootstrap(self.num_nodes as nat)),
            "--delta"@,
            "50"@,
        ];
        if self.protocol.special_client() {
            args.push("-s"@)
        } else {
            args
        }
    }

    /// What a node is started with, given its configuration and the file with the addresses.
    pub fn spawn_node(&self, config: &str, ips: &str) -> (args: Vec<String>)
        requires
            self.num_nodes + 5 <= u64::MAX,
        ensures
            views(args@) == self.spec_node_args(config@, ips@),
    {
        let mut args: Vec<String> = Vec::new();
        push_arg(&mut args, "-c");
        push_arg(&mut args, config);
        push_arg(&mut args, "-i");
        push_arg(&mut args, ips);
        push_arg(&mut args, "--sleep");
        push_number(&mut args, Protocol::bootstrap_secs(self.num_nodes));
        push_arg(&mut args, "--delta");
        push_arg(&mut args, "50");
        if self.protocol.wants_special_client() {
            push_arg(&mut args, "-s");
        }
        assert(views(args@) =~= self.spec_node_args(config@, ips@));
        args
    }

    /// What a client is started with.
    pub open spec fn spec_client_args(self, config: Seq<char>, ips: Seq<char>) -> Seq<Seq<char>> {
        seq![
            "-c"@,
            config,
            "-i"@,
            ips,
            "-m"@,
            decimal(self.total_txs as nat),
            "-w"@,
            decimal(self.window as nat),
        ]
    }

    /// What a client is started with, given its configuration and the file with the addresses.
    pub fn spawn_client(&self, config: &str, ips: &str) -> (args: Vec<String>)
        ensures
            views(args@) == self.spec_client_args(config@, ips@),
    {
        let mut args: Vec<String> = Vec::new();
        push_arg(&mut args, "-c");
        push_arg(&mut args, config);
        push_arg(&mut args, "-i");
        push_arg(&mut args, ips);
        push_arg(&mut args, "-m");
        push_number(&mut args, self.total_txs);
        push_arg(&mut args, "-w");
        push_number(&mut args, self.window as u64);
        assert(views(args@) =~= self.spec_client_args(config@, ips@));
        args
    }

    /// The line that a run is announced with.
    pub open spec fn spec_header(self) -> Seq<char> {
        "│ "@ + self.protocol.spec_label() + " (n="@ + decimal(self.num_nodes as nat) + ", f="@
            + decimal(self.num_faults as nat) + ", clients="@ + decimal(self.num_clients as nat)
            + ", blk="@ + decimal(self.block_size as nat) + ", payload="@ + decimal(
            self.payload as nat,
        ) + "B, window="@ + decimal(self.window as nat) + ", txs/cli="@ + decimal(
            self.total_txs as nat,
        ) + ")"@
    }

    /// The line that a run is announced with.
    pub fn header(&self) -> (s: String)
        ensures
            s@ == self.spec_header(),
    {
        let mut s = "│ ".to_owned();
        s.append(self.protocol.label());
        s.append(" (n=");
        push_decimal(&mut s, self.num_nodes as u64);
        s.append(", f=");
        push_decimal(&mut s, self.num_faults as u64);
        s.append(", clients=");
        push_decimal(&mut s, self.num_clients as u64);
        s.append(", blk=");
        push_decimal(&mut s, self.block_size as u64);
        s.append(", payload=");
        push_decimal(&mut s, self.payload as u64);
        s.append("B, window=");
        push_decimal(&mut s, self.window as u64);
        s.append(", txs/cli=");
        push_decimal(&mut s, self.total_txs);
        s.append(")");
        s
    }
}

/// The lines with the addresses of this many on this machine, one port after the other.
pub open spec fn ip_lines(n: nat, port: nat) -> Seq<char>
    decreases n,
{
    if n == 0 {
        Seq::empty()
    } else {
        ip_lines((n - 1) as nat, port) + loopback((port + n - 1) as nat) + "\n"@
    }
}

/// The lines with the addresses of this many on this machine, one port after the other. A
/// number past the last port is written all the same.
pub fn ip_file(n: usize, port: u16) -> (s: String)
    requires
        n + port <= u64::MAX,
    ensures
        s@ == ip_lines(n as nat, port as nat),
{
    let mut s = String::new();
    let mut i: usize = 0;
    while i < n
        invariant
            i <= n,
            n + port <= u64::MAX,
            s@ == ip_lines(i as nat, port as nat),
        decreases n - i,
    {
        let ghost before = s@;
        s.append("127.0.0.1:");
        push_decimal(&mut s, port as u64 + i as u64);
        s.append("\n");
        assert(s@ =~= before + loopback((port + i) as nat) + "\n"@);
        i = i + 1;
    }
    s
}

/// Everything that a run is started with.
pub struct RunPlan {
    pub ports: Ports,
    /// The name of the directory of the run.
    pub dir: String,
    /// What the configurations are generated with; the directory is to follow.
    pub genconfig: Vec<String>,
    /// The file with the addresses of the nodes for each other.
    pub ip_file: String,
    /// The file with the addresses of the nodes for clients.
    pub cli_ip_file: String,
    /// How many seconds pass between the start of the nodes and of the clients.
    pub bootstrap_secs: u64,
}

/// Numbers the runs.
pub struct Harness {
    pub run_idx: u16,
}

impl Harness {
    /// No run yet.
    pub fn new() -> (h: Harness)
        ensures
            h.run_idx == 0,
    {
        Harness { run_idx: 0 }
    }

    /// The next block of ports.
    pub fn alloc_ports(&mut self) -> (p: Ports)
        requires
            21000 + 300 * old(self).run_idx + 275 <= u16::MAX,
        ensures
            p.numbers() == ports_of_run(old(self).run_idx as int),
            final(self).run_idx == old(self).run_idx + 1,
    {
        let base: u16 = 21000 + self.run_idx * 300;
        let p = Ports {
            base,
            cli_base: base + 100,
            mempool_base: base + 200,
            client_listen: base + 275,
        };
        self.run_idx = self.run_idx + 1;
        p
    }

    /// What the next run is started with.
    pub fn run(&mut self, cfg: &BenchConfig) -> (p: RunPlan)
        requires
            21000 + 300 * old(self).run_idx + 275 <= u16::MAX,
            cfg.num_nodes + 65535 <= u64::MAX,
        ensures
            final(self).run_idx == old(self).run_idx + 1,
            p.ports.numbers() == ports_of_run(old(self).run_idx as int),
            p.dir@ == cfg.dir_name(p.ports.base as nat),
            views(p.genconfig@) == cfg.generator_args(p.ports),
            p.ip_file@ == ip_lines(cfg.num_nodes as nat, p.ports.base as nat),
            p.cli_ip_file@ == ip_lines(cfg.num_nodes as nat, p.ports.cli_base as nat),
            p.bootstrap_secs == bootstrap(cfg.num_nodes as nat),
    {
        let ports = self.alloc_ports();
        RunPlan {
            ports,
            dir: cfg.run_dir(ports.base),
            genconfig: cfg.genconfig(ports),
            ip_file: ip_file(cfg.num_nodes, ports.base),
            cli_ip_file: ip_file(cfg.num_nodes, ports.cli_base),
            bootstrap_secs: Protocol::bootstrap_secs(cfg.num_nodes),
        }
    }
}

/// The output of a client that a line came from.
#[derive(Debug, Clone, Copy, PartialEq, Eq, Structural)]
pub enum Stream {
    Stderr,
    Stdout,
}

/// What a client has reported so far: the last throughput and the last latency, and which of
/// its outputs have ended.
pub struct ClientWatch<V> {
    pub throughput: Option<V>,
    pub latency: Option<V>,
    pub stderr_eof: bool,
    pub stdout_eof: bool,
}

/// The newer one of two values, if there is a newer one.
pub open spec fn newer<V>(before: Option<V>, now: Option<V>) -> Option<V> {
    if now is Some {
        now
    } else {
        before
    }
}

impl<V> ClientWatch<V> {
    /// Nothing was reported yet.
    pub fn new() -> (w: Self)
        ensures
            w == (ClientWatch::<V> {
                throughput: None,
                latency: None,
                stderr_eof: false,
                stdout_eof: false,
            }),
    {
        ClientWatch { throughput: None, latency: None, stderr_eof: false, stdout_eof: false }
    }

    /// Whether an output has ended.
    pub open spec fn ended(self, from: Stream) -> bool {
        match from {
            Stream::Stderr => self.stderr_eof,
            Stream::Stdout => self.stdout_eof,
        }
    }

    /// Whether an output is still to be read.
    pub fn reads(&self, from: Stream) -> (r: bool)
        ensures
            r == !self.ended(from),
    {
        match from {
            Stream::Stderr => !self.stderr_eof,
            Stream::Stdout => !self.stdout_eof,
        }
    }

    /// A line was read, with a throughput, a latency, both or neither in it.
    pub fn on_line(&mut self, throughput: Option<V>, latency: Option<V>)
        ensures
            *final(self) == (ClientWatch {
                throughput: newer(old(self).throughput, throughput),
                latency: newer(old(self).latency, latency),
                ..*old(self)
            }),
    {
        if throughput.is_some() {
            self.throughput = throughput;
        }
        if latency.is_some() {
            self.latency = latency;
        }
    }

    /// An output has ended, or cannot be read any more.
    pub fn on_end(&mut self, from: Stream)
        ensures
            *final(self) == (ClientWatch {
                stderr_eof: old(self).stderr_eof || from == Stream::Stderr,
                stdout_eof: old(self).stdout_eof || from == Stream::Stdout,
                ..*old(self)
            }),
    {
        match from {
            Stream::Stderr => {
                self.stderr_eof = true;
            },
            Stream::Stdout => {
                self.stdout_eof = true;
            },
        }
    }

    /// Whether there is nothing left to read.
    pub fn finished(&self) -> (r: bool)
        ensures
            r == (self.ended(Stream::Stderr) && self.ended(Stream::Stdout)),
    {
        self.stderr_eof && self.stdout_eof
    }

    /// What the client reported: every client reports its latency, and some their throughput.
    /// Nothing if there was no latency.
    pub fn outcome(self) -> (r: Option<(Option<V>, V)>)
        ensures
            r == match self.latency {
                Some(l) => Some((self.throughput, l)),
                None => None,
            },
    {
        match self.latency {
            Some(l) => Some((self.throughput, l)),
            None => None,
        }
    }
}

/// The last value of many, if there is one.
pub open spec fn last_some<V>(values: Seq<Option<V>>) -> Option<V>
    decreases values.len(),
{
    if values.len() == 0 {
        None
    } else {
        newer(last_some(values.drop_last()), values.last())
    }
}

/// However many lines bear a value, the last one counts: one more line with a value replaces
/// whatever was reported, and a line without one changes nothing.
pub proof fn law_last_report_counts<V>(values: Seq<Option<V>>, i: int)
    requires
        0 <= i < values.len(),
        values[i] is Some,
        forall|j: int| i < j < values.len() ==> values[j] is None,
    ensures
        last_some(values) == values[i],
    decreases values.len(),
{
    if i < values.len() - 1 {
        law_last_report_counts(values.drop_last(), i);
    }
}

/// The text of a report in a line, after what announces it.
pub fn extract_after(line: &str, prefix: &str) -> (r: Option<String>)
    ensures
        match r {
            Some(t) => exists|i: int| #[trigger]
                crate::text::first_at(line@, prefix@, i) && t@ == crate::text::trimmed(
                    line@.skip(i + prefix@.len()),
                ),
            None => forall|i: int| !#[trigger] crate::text::occurs_at(line@, prefix@, i),
        },
{
    text_after(line, prefix)
}

/// What all the clients reported, if none of them failed, or else the first one that failed.
pub fn aggregate<T, E>(results: VecDeque<Result<T, E>>) -> (r: Result<Vec<T>, (usize, E)>)
    ensures
        match r {
            Ok(all) => all@.len() == results@.len() && forall|i: int|
                0 <= i < all@.len() ==> results@[i] == Ok::<T, E>(#[trigger] all@[i]),
            Err((j, e)) => j < results@.len() && results@[j as int] == Err::<T, E>(e) && forall|
                i: int,
            |
                0 <= i < j ==> (#[trigger] results@[i]) is Ok,
        },
{
    let n: usize = results.len();
    let mut rest = results;
    let mut all: Vec<T> = Vec::new();
    let mut j: usize = 0;
    while j < n
        invariant
            j <= n,
            n == results@.len(),
            rest@ == results@.skip(j as int),
            all@.len() == j,
            forall|i: int| 0 <= i < j ==> results@[i] == Ok::<T, E>(#[trigger] all@[i]),
        decreases n - j,
    {
        match rest.pop_front() {
            Some(Ok(v)) => {
                all.push(v);
            },
            Some(Err(e)) => {
                assert forall|i: int| 0 <= i < j implies (#[trigger] results@[i]) is Ok by {
                    assert(results@[i] == Ok::<T, E>(all@[i]));
                }
                return Err((j, e));
            },
            None => {},
        }
        j = j + 1;
    }
    Ok(all)
}

/// How wide the lines around a report are.
pub const BOX_WIDTH: usize = 63;

/// A horizontal line.
pub fn box_line() -> (s: String)
    ensures
        s@ == Seq::new(63, |i: int| '─'),
{
    proof {
        reveal_strlit("─");
    }
    let mut s = String::new();
    let mut i: usize = 0;
    while i < BOX_WIDTH
        invariant
            i <= BOX_WIDTH,
            "─"@ == seq!['─'],
            s@ == Seq::new(i as nat, |k: int| '─'),
        decreases BOX_WIDTH - i,
    {
        s.append("─");
        assert(s@ =~= Seq::new((i + 1) as nat, |k: int| '─'));
        i = i + 1;
    }
    s
}

/// The protocols to be measured: the one that was asked for by its short name, or all.
pub open spec fn selection(only: Option<Seq<char>>) -> Seq<Protocol> {
    if only == Some(Protocol::Apollo.spec_short()) {
        seq![Protocol::Apollo]
    } else if only == Some(Protocol::Artemis.spec_short()) {
        seq![Protocol::Artemis]
    } else if only == Some(Protocol::Synchs.spec_short()) {
        seq![Protocol::Synchs]
    } else if only == Some(Protocol::Optsync.spec_short()) {
        seq![Protocol::Optsync]
    } else {
        seq![Protocol::Apollo, Protocol::Artemis, Protocol::Synchs, Protocol::Optsync]
    }
}

/// How many clients there are: as many as was asked for, but at least one.
pub open spec fn client_count(text: Option<Seq<char>>) -> nat {
    match text {
        Some(s) => match parsed(s) {
            Some(n) => if 1 <= n <= u16::MAX {
                n
            } else {
                1
            },
            None => 1,
        },
        None => 1,
    }
}

/// One run, with few nodes or with more of them.
pub open spec fn bench(protocol: Protocol, large: bool, num_clients: u16) -> BenchConfig {
    BenchConfig {
        protocol,
        num_nodes: if large {
            7
        } else {
            3
        },
        num_faults: if large {
            3
        } else {
            1
        },
        num_clients,
        block_size: 400,
        payload: 0,
        total_txs: 50_000,
        window: 10_000,
    }
}

/// All the runs: each protocol with few nodes, and then with more of them.
pub open spec fn matrix(protocols: Seq<Protocol>, num_clients: u16) -> Seq<BenchConfig>
    decreases protocols.len(),
{
    if protocols.len() == 0 {
        Seq::empty()
    } else {
        matrix(protocols.drop_last(), num_clients).push(
            bench(protocols.last(), false, num_clients),
        ).push(bench(protocols.last(), true, num_clients))
    }
}

/// One run, with few nodes or with more of them.
fn bench_of(protocol: Protocol, large: bool, num_clients: u16) -> (c: BenchConfig)
    ensures
        c == bench(protocol, large, num_clients),
{
    BenchConfig {
        protocol,
        num_nodes: if large {
            7
        } else {
            3
        },
        num_faults: if large {
            3
        } else {
            1
        },
        num_clients,
        block_size: 400,
        payload: 0,
        total_txs: 50_000,
        window: 10_000,
    }
}

/// The protocols to be measured: the one that was asked for by its short name, or all.
fn selected(only: Option<&str>) -> (v: Vec<Protocol>)
    ensures
        v@ == selection(
            match only {
                Some(s) => Some(s@),
                None => None,
            },
        ),
{
    let mut v: Vec<Protocol> = Vec::new();
    match only {
        Some(s) => {
            if same_text(s, Protocol::Apollo.short()) {
                v.push(Protocol::Apollo);
            } else if same_text(s, Protocol::Artemis.short()) {
                v.push(Protocol::Artemis);
            } else if same_text(s, Protocol::Synchs.short()) {
                v.push(Protocol::Synchs);
            } else if same_text(s, Protocol::Optsync.short()) {
                v.push(Protocol::Optsync);
            }
        },
        None => {},
    }
    if v.len() == 0 {
        v.push(Protocol::Apollo);
        v.push(Protocol::Artemis);
        v.push(Protocol::Synchs);
        v.push(Protocol::Optsync);
    }
    v
}

/// All the runs, given the protocol and the number of clients that were asked for. What cannot
/// be made sense of is as if it had not been asked for.
pub fn build_matrix(only: Option<&str>, num_clients: Option<&str>) -> (v: Vec<BenchConfig>)
    ensures
        v@ == matrix(
            selection(
                match only {
                    Some(s) => Some(s@),
                    None => None,
                },
            ),
            client_count(
                match num_clients {
                    Some(s) => Some(s@),
                    None => None,
                },
            ) as u16,
        ),
{
    let protocols = selected(only);
    let asked: u16 = match num_clients {
        Some(s) => match parse_u16(s) {
            Some(n) => n,
            None => 1,
        },
        None => 1,
    };
    let clients: u16 = if asked < 1 {
        1
    } else {
        asked
    };
    let mut v: Vec<BenchConfig> = Vec::new();
    let mut i: usize = 0;
    assert(protocols@.take(0) =~= Seq::empty());
    while i < protocols.len()
        invariant
            i <= protocols@.len(),
            v@ == matrix(protocols@.take(i as int), clients),
        decreases protocols@.len() - i,
    {
        v.push(bench_of(protocols[i], false, clients));
        v.push(bench_of(protocols[i], true, clients));
        assert(protocols@.take(i + 1).drop_last() =~= protocols@.take(i as int));
        i = i + 1;
    }
    assert(protocols@.take(i as int) =~= protocols@);
    v
}

/// Whether a port is one of the first `n` from `base`.
pub open spec fn in_range(port: int, base: int, n: int) -> bool {
    base <= port < base + n
}

/// Which of the ports of a run a port is, when there are `n` nodes and `c` clients.
pub open spec fn used_in_run(port: int, idx: int, n: int, c: int) -> bool {
    let (base, cli_base, mempool_base, client_listen) = ports_of_run(idx);
    ||| in_range(port, base, n)
    ||| in_range(port, cli_base, n)
    ||| in_range(port, mempool_base, n)
    ||| in_range(port, client_listen, c)
}

/// With up to 75 nodes and up to 25 clients no port is used twice: neither for two purposes in
/// one run nor in two runs.
pub proof fn law_ports_do_not_overlap(port: int, i: int, j: int, n: int, c: int)
    requires
        0 <= n <= 75,
        0 <= c <= 25,
    ensures
        used_in_run(port, i, n, c) && used_in_run(port, j, n, c) ==> i == j,
        ({
            let (base, cli_base, mempool_base, client_listen) = ports_of_run(i);
            &&& !(in_range(port, base, n) && in_range(port, cli_base, n))
            &&& !(in_range(port, base, n) && in_range(port, mempool_base, n))
            &&& !(in_range(port, base, n) && in_range(port, client_listen, c))
            &&& !(in_range(port, cli_base, n) && in_range(port, mempool_base, n))
            &&& !(in_range(port, cli_base, n) && in_range(port, client_listen, c))
            &&& !(in_range(port, mempool_base, n) && in_range(port, client_listen, c))
        }),
{
}

/// Each run has more than twice as many nodes as faults, and at least one client.
pub proof fn law_runs_can_have_their_faults(protocols: Seq<Protocol>, num_clients: u16, k: int)
    requires
        num_clients >= 1,
        0 <= k < matrix(protocols, num_clients).len(),
    ensures
        2 * matrix(protocols, num_clients)[k].num_faults < matrix(
            protocols,
            num_clients,
        )[k].num_nodes,
        matrix(protocols, num_clients)[k].num_clients >= 1,
    decreases protocols.len(),
{
    let fewer = matrix(protocols.drop_last(), num_clients);
    if k < fewer.len() {
        law_runs_can_have_their_faults(protocols.drop_last(), num_clients, k);
    }
}

/// Each protocol is run twice, with three nodes of which one may be faulty and then with seven of
/// which three may be, with blocks of 400 transactions without payload, 50 000 transactions for
/// each client, and a window of 10 000.
pub proof fn law_two_runs_for_each(protocols: Seq<Protocol>, num_clients: u16, i: int)
    requires
        0 <= i < protocols.len(),
    ensures
        matrix(protocols, num_clients).len() == 2 * protocols.len(),
        ({
            let small = matrix(protocols, num_clients)[2 * i];
            let large = matrix(protocols, num_clients)[2 * i + 1];
            &&& small.protocol == protocols[i] && large.protocol == protocols[i]
            &&& small.num_nodes == 3 && small.num_faults == 1
            &&& large.num_nodes == 7 && large.num_faults == 3
            &&& small.num_clients == num_clients && large.num_clients == num_clients
            &&& small.block_size == 400 && large.block_size == 400
            &&& small.payload == 0 && large.payload == 0
            &&& small.total_txs == 50_000 && large.total_txs == 50_000
            &&& small.window == 10_000 && large.window == 10_000
        }),
    decreases protocols.len(),
{
    lemma_matrix_len(protocols, num_clients);
    let a = protocols.drop_last();
    lemma_matrix_len(a, num_clients);
    if i < a.len() {
        law_two_runs_for_each(a, num_clients, i);
        assert(a[i] == protocols[i]);
    }
}

proof fn lemma_matrix_len(protocols: Seq<Protocol>, num_clients: u16)
    ensures
        matrix(protocols, num_clients).len() == 2 * protocols.len(),
    decreases protocols.len(),
{
    if protocols.len() > 0 {
        lemma_matrix_len(protocols.drop_last(), num_clients);
    }
}

/// The protocol that is asked for by its short name is the only one that is run; with no name, or
/// with one that no protocol has, all four are, each once. As many clients are run as a number from
/// one up says, and one if there is no such number.
pub proof fn law_what_is_run(p: Protocol, asked: Seq<char>, text: Seq<char>)
    ensures
        selection(Some(p.spec_short())) == seq![p],
        asked != "apollo"@ && asked != "artemis"@ && asked != "synchs"@ && asked != "optsync"@
            ==> selection(Some(asked)) == selection(None),
        selection(None).len() == 4,
        selection(None).contains(p),
        Protocol::Apollo.spec_short() == "apollo"@,
        Protocol::Artemis.spec_short() == "artemis"@,
        Protocol::Synchs.spec_short() == "synchs"@,
        Protocol::Optsync.spec_short() == "optsync"@,
        client_count(None) == 1,
        parsed(text) is None ==> client_count(Some(text)) == 1,
        parsed(text) matches Some(n) ==> (1 <= n <= 65535 ==> client_count(Some(text)) == n) && (n
            == 0 || n > 65535 ==> client_count(Some(text)) == 1),
{
    reveal_strlit("apollo");
    reveal_strlit("artemis");
    reveal_strlit("synchs");
    reveal_strlit("optsync");
    assert("apollo"@[1] != "artemis"@[1]);
    assert("synchs"@[0] != "apollo"@[0] && "synchs"@[0] != "artemis"@[0]);
    assert("optsync"@[0] != "apollo"@[0] && "optsync"@[0] != "artemis"@[0]);
    assert("optsync"@[0] != "synchs"@[0]);
    let all = selection(None);
    assert(all[0] == Protocol::Apollo && all[1] == Protocol::Artemis);
    assert(all[2] == Protocol::Synchs && all[3] == Protocol::Optsync);
}

/// Nodes wait five seconds and one more for each node, counting at least three nodes, before they
/// begin. The clients of Apollo and Artemis, and no others, hear of proposals at once.
pub proof fn law_how_nodes_begin(n: nat, p: Protocol)
    ensures
        n >= 3 ==> bootstrap(n) == n + 5,
        n < 3 ==> bootstrap(n) == 8,
        p.special_client() <==> p == Protocol::Apollo || p == Protocol::Artemis,
{
}

/// Each run has three hundred ports from 21000 on: the first for nodes to nodes, from the hundredth
/// for clients to nodes, from the two-hundredth for mempools, and from 275 on for nodes to clients.
pub proof fn law_ports_of_a_run(idx: int)
    ensures
        ports_of_run(0).0 == 21000,
        ports_of_run(idx + 1).0 == ports_of_run(idx).0 + 300,
        ports_of_run(idx).1 - ports_of_run(idx).0 == 100,
        ports_of_run(idx).2 - ports_of_run(idx).0 == 200,
        ports_of_run(idx).3 - ports_of_run(idx).0 == 275,
{
}

/// A run is set up with each of its numbers after the flag for it.
pub proof fn law_numbers_follow_their_flags(
    c: BenchConfig,
    ports: Ports,
    config: Seq<char>,
    ips: Seq<char>,
)
    ensures
        ({
            let g = c.generator_args(ports);
            &&& g.len() == 21
            &&& g[0] == "-n"@ && g[1] == decimal(c.num_nodes as nat)
            &&& g[2] == "-f"@ && g[3] == decimal(c.num_faults as nat)
            &&& g[4] == "-d"@ && g[5] == "50"@
            &&& g[6] == "--blocksize"@ && g[7] == decimal(c.block_size as nat)
            &&& g[8] == "--base_port"@ && g[9] == decimal(ports.base as nat)
            &&& g[10] == "--client_base_port"@ && g[11] == decimal(ports.cli_base as nat)
            &&& g[12] == "--mempool_base_port"@ && g[13] == decimal(ports.mempool_base as nat)
            &&& g[14] == "--client_listen_port"@ && g[15] == decimal(ports.client_listen as nat)
            &&& g[16] == "--num_clients"@ && g[17] == decimal(c.num_clients as nat)
            &&& g[18] == "--payload"@ && g[19] == decimal(c.payload as nat)
            &&& g[20] == "--target"@
        }),
        ({
            let n = c.spec_node_args(config, ips);
            &&& n[0] == "-c"@ && n[1] == config
            &&& n[2] == "-i"@ && n[3] == ips
            &&& n[4] == "--sleep"@
            &&& c.num_nodes >= 3 ==> n[5] == decimal((c.num_nodes + 5) as nat)
            &&& c.num_nodes < 3 ==> n[5] == decimal(8)
            &&& n[6] == "--delta"@ && n[7] == "50"@
            &&& c.protocol == Protocol::Apollo || c.protocol == Protocol::Artemis ==> n.len() == 9
                && n[8] == "-s"@
            &&& c.protocol == Protocol::Synchs || c.protocol == Protocol::Optsync ==> n.len() == 8
        }),
        ({
            let m = c.spec_client_args(config, ips);
            &&& m.len() == 8
            &&& m[0] == "-c"@ && m[1] == config
            &&& m[2] == "-i"@ && m[3] == ips
            &&& m[4] == "-m"@ && m[5] == decimal(c.total_txs as nat)
            &&& m[6] == "-w"@ && m[7] == decimal(c.window as nat)
        }),
{
}

/// The lines of a file of addresses hold one port after the other, each on this machine.
pub proof fn law_one_line_for_each(n: nat, port: nat)
    ensures
        ip_lines(0, port) == Seq::<char>::empty(),
        ip_lines(n + 1, port) == ip_lines(n, port) + "127.0.0.1:"@ + decimal(port + n) + "\n"@,
{
    assert(ip_lines(n + 1, port) =~= ip_lines(n, port) + "127.0.0.1:"@ + decimal(port + n)
        + "\n"@);
}

/// A report replaces the one before it; a line without one changes nothing.
pub proof fn law_newer_report_counts<V>(before: Option<V>, now: V)
    ensures
        newer(before, Some(now)) == Some(now),
        newer(before, None) == before,
{
}

/// The directory of a run is named by its protocol, its numbers and its first port, and the run is
/// announced with its protocol and all its numbers.
pub proof fn law_names_of_a_run(c: BenchConfig, base_port: nat)
    ensures
        c.dir_name(base_port) == c.protocol.spec_short() + "-n"@ + decimal(c.num_nodes as nat)
            + "-c"@ + decimal(c.num_clients as nat) + "-b"@ + decimal(c.block_size as nat) + "-p"@
            + decimal(c.payload as nat) + "-"@ + decimal(base_port),
        c.spec_header() == "│ "@ + c.protocol.spec_label() + " (n="@ + decimal(c.num_nodes as nat)
            + ", f="@ + decimal(c.num_faults as nat) + ", clients="@ + decimal(c.num_clients as nat)
            + ", blk="@ + decimal(c.block_size as nat) + ", payload="@ + decimal(c.payload as nat)
            + "B, window="@ + decimal(c.window as nat) + ", txs/cli="@ + decimal(c.total_txs as nat)
            + ")"@,
        Protocol::Apollo.spec_label() == "Apollo"@,
        Protocol::Artemis.spec_label() == "Artemis"@,
        Protocol::Synchs.spec_label() == "Sync HotStuff"@,
        Protocol::Optsync.spec_label() == "Opt Sync"@,
{
}

} // verus!
