//! What a node is configured with.

use crate::config::{
    addresses_ok, bad_address, bad_key, check_keys, check_net, keys_ok, valid_net, Algorithm,
    ParseError,
};
use crate::fnv_map::FnvMap;
use crate::mempool::tx::{ClientId, Replica};
use crate::text::{any_interface, decimal, listen_address, parsed, port_of, port_text, push_decimal};
use vstd::prelude::*;

verus! {

/// How many seconds the throughput of a node is sampled over, unless the configuration says.
pub fn default_bench_emit_window_secs() -> (n: u64)
    ensures
        n == 5,
{
    5
}

/// The configuration of a node.
pub struct Node {
    /// Where each node listens for the others.
    pub net_map: FnvMap<Replica, String>,
    /// Where each node listens for the others' mempools.
    pub mempool_net_map: FnvMap<Replica, String>,
    /// Where each client listens for messages of the nodes.
    pub client_net_map: FnvMap<ClientId, String>,
    pub delta: u64,
    pub id: Replica,
    pub num_nodes: usize,
    pub num_faults: usize,
    pub block_size: usize,
    /// The port for clients.
    pub client_port: u16,
    /// The port for the others' mempools.
    pub mempool_port: u16,
    pub payload: usize,
    /// How many seconds the throughput is sampled over.
    pub bench_emit_window_secs: u64,
    /// The one node that reports its throughput.
    pub bench_metrics_node: Replica,
    pub crypto_alg: Algorithm,
    /// The encoded public key of each node.
    pub pk_map: FnvMap<Replica, Vec<u8>>,
    /// The encoded secret key of this node.
    pub secret_key_bytes: Vec<u8>,
    /// The certificate chain: the node's certificate, then the root's.
    pub my_cert_path: String,
    pub my_cert_key_path: String,
    pub root_cert_path: String,
}

/// The address table after the addresses of the first nodes were given anew: a node listens on
/// every interface itself, at the port that the others use.
pub open spec fn is_updated(
    before: Map<Replica, String>,
    after: Map<Replica, String>,
    ips: Seq<String>,
    id: Replica,
) -> bool {
    &&& forall|r: Replica| #[trigger]
        after.contains_key(r) <==> before.contains_key(r) || r < ips.len()
    &&& forall|r: Replica|
        r >= ips.len() && before.contains_key(r) ==> #[trigger] after[r] == before[r]
    &&& forall|r: Replica|
        r < ips.len() && r != id ==> (#[trigger] after[r])@ == ips[r as int]@
    &&& id < ips.len() ==> after[id]@ == any_interface(parsed(port_text(ips[id as int]@))->0)
}

impl Node {
    /// What `validate` finds: the first of these that is wrong.
    pub open spec fn verdict(&self, r: Result<(), ParseError>) -> bool {
        match valid_net(self.net_map@, self.num_nodes, self.num_faults) {
            Err(f) => r == Err::<(), ParseError>(f),
            Ok(()) => if !addresses_ok(self.net_map@, self.num_nodes) {
                r is Err && bad_address(self.net_map@, self.num_nodes, r->Err_0)
            } else if self.crypto_alg == Algorithm::RSA {
                r == Err::<(), ParseError>(ParseError::Unimplemented(Algorithm::RSA))
            } else if !keys_ok(self.pk_map@, self.num_nodes) {
                r is Err && bad_key(self.pk_map@, self.num_nodes, r->Err_0)
            } else if self.secret_key_bytes@.len() == 0 {
                r == Err::<(), ParseError>(ParseError::InvalidSkSize(0))
            } else {
                r is Ok
            },
        }
    }

    /// Checks that there is an address for each node and for nobody else, that the nodes are
    /// more than twice as many as the faults, that the algorithm can be used, and that each key
    /// is there. Keys are decoded later, so nothing but their presence is checked.
    pub fn validate(&self) -> (r: Result<(), ParseError>)
        requires
            2 * self.num_faults <= usize::MAX,
        ensures
            self.verdict(r),
    {
        match check_net(&self.net_map, self.num_nodes, self.num_faults) {
            Err(e) => {
                proof {
                    if valid_net(self.net_map@, self.num_nodes, self.num_faults) is Ok {
                        assert(self.net_map@.contains_key(e->InvalidMapEntry_0));
                    }
                }
                return Err(e);
            },
            Ok(()) => {},
        }
        match self.crypto_alg {
            Algorithm::RSA => {
                return Err(ParseError::Unimplemented(Algorithm::RSA));
            },
            _ => {},
        }
        match check_keys(&self.pk_map, self.num_nodes) {
            Err(e) => {
                proof {
                    if e is InvalidMapEntry {
                        assert(self.pk_map@.contains_key(e->InvalidMapEntry_0));
                    }
                }
                return Err(e);
            },
            Ok(()) => {},
        }
        if self.secret_key_bytes.len() == 0 {
            return Err(ParseError::InvalidSkSize(0));
        }
        Ok(())
    }

    /// A configuration with nothing filled in.
    pub fn new() -> (n: Node)
        ensures
            n.net_map@ == Map::<Replica, String>::empty(),
            n.mempool_net_map@ == Map::<Replica, String>::empty(),
            n.client_net_map@ == Map::<ClientId, String>::empty(),
            n.pk_map@ == Map::<Replica, Vec<u8>>::empty(),
            n.secret_key_bytes@.len() == 0,
            n.delta == 50,
            n.id == 0,
            n.num_nodes == 0,
            n.num_faults == 0,
            n.block_size == 0,
            n.client_port == 0,
            n.mempool_port == 0,
            n.payload == 0,
            n.bench_emit_window_secs == 5,
            n.bench_metrics_node == 0,
            n.crypto_alg == Algorithm::ED25519,
            n.my_cert_path@.len() == 0,
            n.my_cert_key_path@.len() == 0,
            n.root_cert_path@.len() == 0,
    {
        Node {
            net_map: FnvMap::new(),
            mempool_net_map: FnvMap::new(),
            client_net_map: FnvMap::new(),
            delta: 50,
            id: 0,
            num_nodes: 0,
            num_faults: 0,
            block_size: 0,
            client_port: 0,
            mempool_port: 0,
            payload: 0,
            bench_emit_window_secs: default_bench_emit_window_secs(),
            bench_metrics_node: 0,
            crypto_alg: Algorithm::ED25519,
            pk_map: FnvMap::new(),
            secret_key_bytes: Vec::new(),
            my_cert_path: String::new(),
            my_cert_key_path: String::new(),
            root_cert_path: String::new(),
        }
    }

    /// Gives the first nodes these addresses. This node's own address becomes its port on every
    /// interface, so the address given for it must end in a port.
    pub fn update_config(&mut self, ips: Vec<String>)
        requires
            ips@.len() <= u16::MAX,
            old(self).id < ips@.len() ==> parsed(port_text(ips@[old(self).id as int]@)) is Some
                && parsed(port_text(ips@[old(self).id as int]@))->0 <= u16::MAX,
        ensures
            is_updated(old(self).net_map@, final(self).net_map@, ips@, old(self).id),
            *final(self) == (Node { net_map: final(self).net_map, ..*old(self) }),
    {
        let ghost before = self.net_map@;
        let mut idx: u16 = 0;
        while (idx as usize) < ips.len()
            invariant
                idx <= ips@.len() <= u16::MAX,
                *self == (Node { net_map: self.net_map, ..*old(self) }),
                self.id < ips@.len() ==> parsed(port_text(ips@[self.id as int]@)) is Some
                    && parsed(port_text(ips@[self.id as int]@))->0 <= u16::MAX,
                is_updated(before, self.net_map@, ips@.take(idx as int), self.id),
            decreases ips@.len() - idx,
        {
            let ip = &ips[idx as usize];
            if idx == self.id {
                if let Some(port) = port_of(ip.as_str()) {
                    self.net_map.insert(idx, listen_address(port));
                }
            } else {
                self.net_map.insert(idx, ip.clone());
            }
            idx = idx + 1;
        }
        assert(ips@.take(idx as int) =~= ips@);
    }

    /// How many seconds this node waits before it begins: as many as it was asked to, or else
    /// the more the more nodes there are.
    pub fn startup_secs(&self, asked: Option<u64>) -> (n: u64)
        requires
            self.num_nodes + 5 <= u64::MAX,
        ensures
            n == match asked {
                Some(secs) => secs as int,
                None => 5 + self.num_nodes,
            },
    {
        match asked {
            Some(secs) => secs,
            None => 5 + self.num_nodes as u64,
        }
    }

    /// What the store of this node is called, unless it was given a name.
    pub fn store_name(&self) -> (s: String)
        ensures
            s@ == "node-"@ + decimal(self.id as nat) + ".rocksdb"@,
    {
        let mut s = "node-".to_owned();
        push_decimal(&mut s, self.id as u64);
        s.append(".rocksdb");
        s
    }

    /// The other nodes, in no particular order.
    pub fn peers(&self) -> (ids: Vec<Replica>)
        ensures
            ids@.no_duplicates(),
            ids@.to_set() == self.net_map@.dom().remove(self.id),
    {
        let all = self.net_map.keys();
        let mut ids: Vec<Replica> = Vec::new();
        let mut i: usize = 0;
        while i < all.len()
            invariant
                i <= all@.len(),
                all@.to_set() == self.net_map@.dom(),
                all@.no_duplicates(),
                ids@.no_duplicates(),
                forall|r: Replica| #[trigger]
                    ids@.contains(r) <==> all@.take(i as int).contains(r) && r != self.id,
            decreases all@.len() - i,
        {
            let id: Replica = all[i];
            let ghost before = ids@;
            let ghost seen = all@.take(i as int);
            proof {
                assert(all@.take(i + 1) =~= seen.push(id));
                assert(!seen.contains(id)) by {
                    if seen.contains(id) {
                        let k = seen.index_of(id);
                        assert(all@[k] == all@[i as int]);
                    }
                }
                assert forall|r: Replica| #[trigger]
                    seen.push(id).contains(r) <==> seen.contains(r) || r == id by {
                    vstd::seq_lib::lemma_seq_contains_after_push(seen, id, r);
                }
                assert(!before.contains(id));
                assert forall|r: Replica| #[trigger]
                    before.push(id).contains(r) <==> before.contains(r) || r == id by {
                    vstd::seq_lib::lemma_seq_contains_after_push(before, id, r);
                }
            }
            if id != self.id {
                ids.push(id);
            }
            i = i + 1;
        }
        proof {
            assert(all@.take(i as int) =~= all@);
            assert forall|r: Replica| ids@.to_set().contains(r) <==> self.net_map@.dom().remove(
                self.id,
            ).contains(r) by {
                assert(ids@.contains(r) <==> all@.contains(r) && r != self.id);
                assert(all@.to_set().contains(r) <==> all@.contains(r));
            }
            assert(ids@.to_set() =~= self.net_map@.dom().remove(self.id));
        }
        ids
    }

    /// The address of this node.
    pub fn my_ip(&self) -> (s: String)
        requires
            self.net_map@.contains_key(self.id),
        ensures
            s@ == self.net_map@[self.id]@,
    {
        match self.net_map.get(self.id) {
            Some(s) => s.clone(),
            None => String::new(),
        }
    }

    /// The address at which this node listens for clients.
    pub fn client_ip(&self) -> (s: String)
        ensures
            s@ == any_interface(self.client_port as nat),
    {
        listen_address(self.client_port)
    }

    /// The address at which this node listens for the others' mempools.
    pub fn mempool_ip(&self) -> (s: String)
        ensures
            s@ == any_interface(self.mempool_port as nat),
    {
        listen_address(self.mempool_port)
    }
}

/// A configuration is accepted if and only if there are as many addresses as nodes, the nodes are
/// more than twice as many as the faults, every address and every key belongs to a node, the
/// algorithm is not RSA, no public key is empty, and the secret key is not.
pub proof fn law_accepted_configurations(c: Node, r: Result<(), ParseError>)
    requires
        c.verdict(r),
    ensures
        r is Ok <==> {
            &&& c.net_map@.dom().len() == c.num_nodes
            &&& c.num_nodes > 2 * c.num_faults
            &&& forall|i: Replica| #[trigger] c.net_map@.dom().contains(i) ==> i < c.num_nodes
            &&& c.crypto_alg != Algorithm::RSA
            &&& forall|i: Replica| #[trigger]
                c.pk_map@.dom().contains(i) ==> i < c.num_nodes && c.pk_map@[i]@.len() > 0
            &&& c.secret_key_bytes@.len() > 0
        },
{
    if addresses_ok(c.net_map@, c.num_nodes) {
        assert forall|i: Replica| #[trigger] c.net_map@.dom().contains(i) implies i
            < c.num_nodes by {
            assert(c.net_map@.contains_key(i));
        }
    }
    if keys_ok(c.pk_map@, c.num_nodes) {
        assert forall|i: Replica| #[trigger] c.pk_map@.dom().contains(i) implies i < c.num_nodes
            && c.pk_map@[i]@.len() > 0 by {
            assert(c.pk_map@.contains_key(i));
        }
    }
}

/// What is found wrong first: the number of addresses, then the number of faults, then an address
/// of no node, then the algorithm, then a key of no node or without bytes, and then a secret key
/// without bytes. The error names it.
pub proof fn law_first_fault_is_named(c: Node, r: Result<(), ParseError>)
    requires
        c.verdict(r),
    ensures
        ({
            let addresses = c.net_map@.dom().len();
            let strange = exists|i: Replica| #[trigger]
                c.net_map@.contains_key(i) && i >= c.num_nodes;
            let bad_keys = exists|i: Replica| #[trigger]
                c.pk_map@.contains_key(i) && (i >= c.num_nodes || c.pk_map@[i]@.len() == 0);
            let counted = addresses == c.num_nodes && 2 * c.num_faults < c.num_nodes;
            &&& addresses != c.num_nodes ==> r == Err::<(), ParseError>(
                ParseError::InvalidMapLen(c.num_nodes, addresses as usize),
            )
            &&& addresses == c.num_nodes && 2 * c.num_faults >= c.num_nodes ==> r == Err::<
                (),
                ParseError,
            >(ParseError::IncorrectFaults(c.num_faults, c.num_nodes))
            &&& counted && strange ==> (r matches Err(ParseError::InvalidMapEntry(i))
                && c.net_map@.contains_key(i) && i >= c.num_nodes)
            &&& counted && !strange && c.crypto_alg == Algorithm::RSA ==> r == Err::<
                (),
                ParseError,
            >(ParseError::Unimplemented(Algorithm::RSA))
            &&& counted && !strange && c.crypto_alg != Algorithm::RSA && bad_keys ==> {
                ||| r matches Err(ParseError::InvalidMapEntry(i)) && c.pk_map@.contains_key(i) && i
                    >= c.num_nodes
                ||| r == Err::<(), ParseError>(ParseError::InvalidPkSize(0)) && exists|i: Replica|
                    #[trigger] c.pk_map@.contains_key(i) && c.pk_map@[i]@.len() == 0
            }
            &&& counted && !strange && c.crypto_alg != Algorithm::RSA && !bad_keys
                && c.secret_key_bytes@.len() == 0 ==> r == Err::<(), ParseError>(
                ParseError::InvalidSkSize(0),
            )
        }),
{
}

/// The first nodes have the addresses they were given, but for this node: it listens on every
/// interface, at the port at the end of its own. The others keep theirs.
pub proof fn law_new_addresses(
    before: Map<Replica, String>,
    after: Map<Replica, String>,
    ips: Seq<String>,
    id: Replica,
    r: Replica,
)
    requires
        is_updated(before, after, ips, id),
    ensures
        r < ips.len() ==> after.contains_key(r),
        r < ips.len() && r != id ==> after[r]@ == ips[r as int]@,
        r < ips.len() && r == id ==> after[r]@ == any_interface(
            parsed(port_text(ips[r as int]@))->0,
        ),
        r >= ips.len() ==> after.contains_key(r) == before.contains_key(r),
        r >= ips.len() && before.contains_key(r) ==> after[r] == before[r],
{
}

} // verus!
