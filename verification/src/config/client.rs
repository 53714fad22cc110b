//! What a client is configured with.

use crate::config::{
    addresses_ok, bad_address, bad_key, check_keys, check_net, keys_ok, valid_net, Algorithm,
    ParseError,
};
use crate::fnv_map::FnvMap;
use crate::mempool::tx::{ClientId, Replica};
use vstd::prelude::*;

verus! {

/// The configuration of a client.
pub struct Client {
    /// Where each node listens for clients.
    pub net_map: FnvMap<Replica, String>,
    pub crypto_alg: Algorithm,
    /// The encoded public key of each node.
    pub server_pk: FnvMap<Replica, Vec<u8>>,
    pub num_nodes: usize,
    pub num_faults: usize,
    pub block_size: usize,
    pub payload: usize,
    /// Which client this is, and where it listens. The nodes know the same address.
    pub my_id: ClientId,
    pub my_listen_addr: String,
    /// The certificate chain: the client's certificate, then the root's.
    pub my_cert_path: String,
    pub my_cert_key_path: String,
    pub root_cert_path: String,
}

impl Client {
    /// What `validate` finds: the first of these that is wrong.
    pub open spec fn verdict(&self, r: Result<(), ParseError>) -> bool {
        match valid_net(self.net_map@, self.num_nodes, self.num_faults) {
            Err(f) => r == Err::<(), ParseError>(f),
            Ok(()) => if !addresses_ok(self.net_map@, self.num_nodes) {
                r is Err && bad_address(self.net_map@, self.num_nodes, r->Err_0)
            } else if self.crypto_alg == Algorithm::RSA {
                r == Err::<(), ParseError>(ParseError::Unimplemented(Algorithm::RSA))
            } else if !keys_ok(self.server_pk@, self.num_nodes) {
                r is Err && bad_key(self.server_pk@, self.num_nodes, r->Err_0)
            } else {
                r is Ok
            },
        }
    }

    /// Checks that there is an address for each node and for nobody else, that the nodes are
    /// more than twice as many as the faults, that the algorithm can be used, and that each key
    /// is there.
    pub fn validate(&self) -> (r: Result<(), ParseError>)
        requires
            2 * self.num_faults <= usize::MAX,
        ensures
            self.verdict(r),
    {
        match check_net(&self.net_map, self.num_nodes, self.num_faults) {
            Err(e) => {
                proof {
                    if valid_net(self.net_map@, self.num_nodes, self.num_faults) is Ok {
                        assert(self.net_map@.contains_key(e->InvalidMapEntry_0));
                    }
                }
                return Err(e);
            },
            Ok(()) => {},
        }
        match self.crypto_alg {
            Algorithm::RSA => {
                return Err(ParseError::Unimplemented(Algorithm::RSA));
            },
            _ => {},
        }
        let r = check_keys(&self.server_pk, self.num_nodes);
        proof {
            if r is Err && r->Err_0 is InvalidMapEntry {
                assert(self.server_pk@.contains_key(r->Err_0->InvalidMapEntry_0));
            }
        }
        r
    }

    /// A configuration with nothing filled in.
    pub fn new() -> (c: Client)
        ensures
            c.net_map@ == Map::<Replica, String>::empty(),
            c.server_pk@ == Map::<Replica, Vec<u8>>::empty(),
            c.crypto_alg == Algorithm::ED25519,
            c.num_nodes == 0,
            c.num_faults == 0,
            c.block_size == 0,
            c.payload == 0,
            c.my_id == 0,
            c.my_listen_addr@.len() == 0,
            c.my_cert_path@.len() == 0,
            c.my_cert_key_path@.len() == 0,
            c.root_cert_path@.len() == 0,
    {
        Client {
            net_map: FnvMap::new(),
            crypto_alg: Algorithm::ED25519,
            server_pk: FnvMap::new(),
            num_nodes: 0,
            num_faults: 0,
            block_size: 0,
            payload: 0,
            my_id: 0,
            my_listen_addr: String::new(),
            my_cert_path: String::new(),
            my_cert_key_path: String::new(),
            root_cert_path: String::new(),
        }
    }

    /// Gives the first nodes these addresses.
    pub fn update_config(&mut self, ips: Vec<String>)
        requires
            ips@.len() <= u16::MAX,
        ensures
            forall|r: Replica| #[trigger]
                final(self).net_map@.contains_key(r) <==> old(self).net_map@.contains_key(r) || r
                    < ips@.len(),
            forall|r: Replica|
                r < ips@.len() ==> (#[trigger] final(self).net_map@[r])@ == ips@[r as int]@,
            forall|r: Replica|
                r >= ips@.len() && old(self).net_map@.contains_key(r)
                    ==> #[trigger] final(self).net_map@[r] == old(self).net_map@[r],
            *final(self) == (Client { net_map: final(self).net_map, ..*old(self) }),
    {
        let mut idx: u16 = 0;
        while (idx as usize) < ips.len()
            invariant
                idx <= ips@.len() <= u16::MAX,
                *self == (Client { net_map: self.net_map, ..*old(self) }),
                forall|r: Replica| #[trigger]
                    self.net_map@.contains_key(r) <==> old(self).net_map@.contains_key(r) || r
                        < idx,
                forall|r: Replica|
                    r < idx ==> (#[trigger] self.net_map@[r])@ == ips@[r as int]@,
                forall|r: Replica|
                    r >= idx && old(self).net_map@.contains_key(r)
                        ==> #[trigger] self.net_map@[r] == old(self).net_map@[r],
            decreases ips@.len() - idx,
        {
            self.net_map.insert(idx, ips[idx as usize].clone());
            idx = idx + 1;
        }
    }
}

/// A configuration is accepted if and only if there are as many addresses as nodes, the nodes are
/// more than twice as many as the faults, every address and every key belongs to a node, the
/// algorithm is not RSA, and no public key is empty.
pub proof fn law_accepted_configurations(c: Client, r: Result<(), ParseError>)
    requires
        c.verdict(r),
    ensures
        r is Ok <==> {
            &&& c.net_map@.dom().len() == c.num_nodes
            &&& c.num_nodes > 2 * c.num_faults
            &&& forall|i: Replica| #[trigger] c.net_map@.dom().contains(i) ==> i < c.num_nodes
            &&& c.crypto_alg != Algorithm::RSA
            &&& forall|i: Replica| #[trigger]
                c.server_pk@.dom().contains(i) ==> i < c.num_nodes && c.server_pk@[i]@.len() > 0
        },
{
    if addresses_ok(c.net_map@, c.num_nodes) {
        assert forall|i: Replica| #[trigger] c.net_map@.dom().contains(i) implies i
            < c.num_nodes by {
            assert(c.net_map@.contains_key(i));
        }
    }
    if keys_ok(c.server_pk@, c.num_nodes) {
        assert forall|i: Replica| #[trigger] c.server_pk@.dom().contains(i) implies i < c.num_nodes
            && c.server_pk@[i]@.len() > 0 by {
            assert(c.server_pk@.contains_key(i));
        }
    }
}

/// What is found wrong first: the number of addresses, then the number of faults, then an address
/// of no node, then the algorithm, and then a key of no node or without bytes. The error names it.
pub proof fn law_first_fault_is_named(c: Client, r: Result<(), ParseError>)
    requires
        c.verdict(r),
    ensures
        ({
            let addresses = c.net_map@.dom().len();
            let strange = exists|i: Replica| #[trigger]
                c.net_map@.contains_key(i) && i >= c.num_nodes;
            let bad_keys = exists|i: Replica| #[trigger]
                c.server_pk@.contains_key(i) && (i >= c.num_nodes || c.server_pk@[i]@.len() == 0);
            let counted = addresses == c.num_nodes && 2 * c.num_faults < c.num_nodes;
            &&& addresses != c.num_nodes ==> r == Err::<(), ParseError>(
                ParseError::InvalidMapLen(c.num_nodes, addresses as usize),
            )
            &&& addresses == c.num_nodes && 2 * c.num_faults >= c.num_nodes ==> r == Err::<
                (),
                ParseError,
            >(ParseError::IncorrectFaults(c.num_faults, c.num_nodes))
            &&& counted && strange ==> (r matches Err(ParseError::InvalidMapEntry(i))
                && c.net_map@.contains_key(i) && i >= c.num_nodes)
            &&& counted && !strange && c.crypto_alg == Algorithm::RSA ==> r == Err::<
                (),
                ParseError,
            >(ParseError::Unimplemented(Algorithm::RSA))
            &&& counted && !strange && c.crypto_alg != Algorithm::RSA && bad_keys ==> {
                ||| r matches Err(ParseError::InvalidMapEntry(i)) && c.server_pk@.contains_key(i)
                    && i >= c.num_nodes
                ||| r == Err::<(), ParseError>(ParseError::InvalidPkSize(0)) && exists|i: Replica|
                    #[trigger] c.server_pk@.contains_key(i) && c.server_pk@[i]@.len() == 0
            }
        }),
{
}

} // verus!
