//! What a node and a client are configured with.

pub mod client;
pub mod node;

use crate::fnv_map::FnvMap;
use crate::mempool::tx::Replica;
use vstd::prelude::*;

verus! {

/// A signature algorithm.
#[derive(Debug, Clone, Copy, PartialEq, Eq, Structural)]
pub enum Algorithm {
    ED25519,
    SECP256K1,
    RSA,
}

/// What is wrong with a configuration.
#[derive(Debug, Clone, Copy, PartialEq, Eq, Structural)]
pub enum ParseError {
    /// The number of nodes, and the number of addresses that were given.
    InvalidMapLen(usize, usize),
    /// The number of faults, and the number of nodes, which is too few for them.
    IncorrectFaults(usize, usize),
    /// An id that no node has.
    InvalidMapEntry(Replica),
    /// The length of a public key.
    InvalidPkSize(usize),
    /// The length of the secret key.
    InvalidSkSize(usize),
    /// An algorithm that cannot be used.
    Unimplemented(Algorithm),
}

/// Whether a node of `num_nodes` has this id.
pub open spec fn valid_replica(r: Replica, num_nodes: usize) -> bool {
    r < num_nodes
}

/// Whether a node of `num_nodes` has this id.
pub fn is_valid_replica(r: Replica, num_nodes: usize) -> (v: bool)
    ensures
        v == valid_replica(r, num_nodes),
{
    (r as usize) < num_nodes
}

/// Whether the ids and the numbers of nodes and faults agree.
pub open spec fn valid_net(
    net: Map<Replica, String>,
    num_nodes: usize,
    num_faults: usize,
) -> Result<(), ParseError> {
    if net.dom().len() != num_nodes {
        Err(ParseError::InvalidMapLen(num_nodes, net.dom().len() as usize))
    } else if 2 * num_faults >= num_nodes {
        Err(ParseError::IncorrectFaults(num_faults, num_nodes))
    } else {
        Ok(())
    }
}

/// Whether an error names an id that some address was given for and no node has.
pub open spec fn bad_address(
    net: Map<Replica, String>,
    num_nodes: usize,
    e: ParseError,
) -> bool {
    e matches ParseError::InvalidMapEntry(r) && net.contains_key(r) && !valid_replica(
        r,
        num_nodes,
    )
}

/// Whether an error names a key that no node has, or a key without bytes.
pub open spec fn bad_key(
    keys: Map<Replica, Vec<u8>>,
    num_nodes: usize,
    e: ParseError,
) -> bool {
    match e {
        ParseError::InvalidMapEntry(r) => keys.contains_key(r) && !valid_replica(r, num_nodes),
        ParseError::InvalidPkSize(n) => n == 0 && exists|r: Replica| #[trigger]
            keys.contains_key(r) && valid_replica(r, num_nodes) && keys[r]@.len() == 0,
        _ => false,
    }
}

/// Whether every address belongs to a node.
pub open spec fn addresses_ok(net: Map<Replica, String>, num_nodes: usize) -> bool {
    forall|r: Replica| #[trigger] net.contains_key(r) ==> valid_replica(r, num_nodes)
}

/// Whether every key belongs to a node and has bytes.
pub open spec fn keys_ok(keys: Map<Replica, Vec<u8>>, num_nodes: usize) -> bool {
    forall|r: Replica| #[trigger]
        keys.contains_key(r) ==> valid_replica(r, num_nodes) && keys[r]@.len() > 0
}

/// Checks the numbers of nodes and faults, and then each address.
pub(crate) fn check_net(
    net: &FnvMap<Replica, String>,
    num_nodes: usize,
    num_faults: usize,
) -> (r: Result<(), ParseError>)
    requires
        2 * num_faults <= usize::MAX,
    ensures
        match r {
            Ok(()) => valid_net(net@, num_nodes, num_faults) is Ok && addresses_ok(net@, num_nodes),
            Err(e) => match valid_net(net@, num_nodes, num_faults) {
                Err(f) => e == f,
                Ok(()) => bad_address(net@, num_nodes, e),
            },
        },
{
    let len: usize = net.len();
    if len != num_nodes {
        return Err(ParseError::InvalidMapLen(num_nodes, len));
    }
    if 2 * num_faults >= num_nodes {
        return Err(ParseError::IncorrectFaults(num_faults, num_nodes));
    }
    let ids = net.keys();
    let mut i: usize = 0;
    while i < ids.len()
        invariant
            i <= ids@.len(),
            ids@.to_set() == net@.dom(),
            valid_net(net@, num_nodes, num_faults) is Ok,
            forall|j: int| 0 <= j < i ==> valid_replica(#[trigger] ids@[j], num_nodes),
        decreases ids@.len() - i,
    {
        assert(ids@.to_set().contains(ids@[i as int]));
        if !is_valid_replica(ids[i], num_nodes) {
            return Err(ParseError::InvalidMapEntry(ids[i]));
        }
        i = i + 1;
    }
    proof {
        assert forall|r: Replica| #[trigger] net@.contains_key(r) implies valid_replica(
            r,
            num_nodes,
        ) by {
            assert(ids@.to_set().contains(r));
        }
    }
    Ok(())
}

/// Checks each key, in no particular order.
pub(crate) fn check_keys(keys: &FnvMap<Replica, Vec<u8>>, num_nodes: usize) -> (r: Result<
    (),
    ParseError,
>)
    ensures
        match r {
            Ok(()) => keys_ok(keys@, num_nodes),
            Err(e) => bad_key(keys@, num_nodes, e),
        },
{
    let ids = keys.keys();
    let mut i: usize = 0;
    while i < ids.len()
        invariant
            i <= ids@.len(),
            ids@.to_set() == keys@.dom(),
            forall|j: int|
                0 <= j < i ==> valid_replica(#[trigger] ids@[j], num_nodes) && keys@[ids@[j]]@.len()
                    > 0,
        decreases ids@.len() - i,
    {
        assert(ids@.to_set().contains(ids@[i as int]));
        assert(keys@.contains_key(ids@[i as int]));
        if !is_valid_replica(ids[i], num_nodes) {
            return Err(ParseError::InvalidMapEntry(ids[i]));
        }
        if let Some(k) = keys.get(ids[i]) {
            if k.len() == 0 {
                return Err(ParseError::InvalidPkSize(0));
            }
        }
        i = i + 1;
    }
    proof {
        assert forall|r: Replica| #[trigger] keys@.contains_key(r) implies valid_replica(
            r,
            num_nodes,
        ) && keys@[r]@.len() > 0 by {
            assert(ids@.to_set().contains(r));
        }
    }
    Ok(())
}

/// Every id below `n` but `id`, in order.
pub open spec fn others(n: nat, id: Replica) -> Seq<Replica>
    decreases n,
{
    if n == 0 {
        Seq::empty()
    } else if n - 1 == id {
        others((n - 1) as nat, id)
    } else {
        others((n - 1) as nat, id).push((n - 1) as Replica)
    }
}

/// Every id below `n` but `id`, in order.
pub fn peers_of(n: u16, id: Replica) -> (peers: Vec<Replica>)
    ensures
        peers@ == others(n as nat, id),
{
    let mut peers: Vec<Replica> = Vec::new();
    let mut r: u16 = 0;
    while r < n
        invariant
            r <= n,
            peers@ == others(r as nat, id),
        decreases n - r,
    {
        if r != id {
            peers.push(r);
        }
        r = r + 1;
    }
    peers
}

/// Everybody but oneself is a peer, once, and they are in order.
pub proof fn law_peers_are_the_others(n: nat, id: Replica)
    requires
        n <= u16::MAX,
    ensures
        forall|r: Replica| #[trigger] others(n, id).contains(r) <==> r < n && r != id,
        forall|i: int, j: int|
            0 <= i < j < others(n, id).len() ==> #[trigger] others(n, id)[i] < #[trigger] others(
                n,
                id,
            )[j],
        id < n ==> others(n, id).len() == n - 1,
        id >= n ==> others(n, id).len() == n,
    decreases n,
{
    if n > 0 {
        let m = (n - 1) as nat;
        law_peers_are_the_others(m, id);
        let a = others(m, id);
        let b = others(n, id);
        if m != id {
            assert(b =~= a.push(m as Replica));
            assert forall|r: Replica| #[trigger] b.contains(r) <==> r < n && r != id by {
                if b.contains(r) && r != m {
                    let i = choose|i: int| 0 <= i < b.len() && b[i] == r;
                    assert(a[i] == r);
                    assert(a.contains(r));
                }
                if a.contains(r) {
                    let i = choose|i: int| 0 <= i < a.len() && a[i] == r;
                    assert(b[i] == r);
                }
                assert(b[a.len() as int] == m);
            }
            assert forall|i: int, j: int| 0 <= i < j < b.len() implies #[trigger] b[i]
                < #[trigger] b[j] by {
                assert(a.contains(a[i]));
            }
        }
    }
}

} // verus!
