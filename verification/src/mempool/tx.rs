//! What the keyed pool asks of a transaction.

use crate::split_map::SplitKey;
use vstd::prelude::*;

verus! {

/// Identifies a client.
pub type ClientId = u16;

/// Identifies a replica.
pub type Replica = u16;

/// A client's sequence number.
pub type Nonce = u64;

/// The client and its sequence number: what tells two transactions apart.
pub type TxKey = (ClientId, Nonce);

/// A transaction that the keyed pool can hold.
pub trait MempoolTx: Sized {
    spec fn spec_client_id(&self) -> ClientId;

    spec fn spec_nonce(&self) -> Nonce;

    /// The client that originated this transaction.
    fn client_id(&self) -> (c: ClientId)
        ensures
            c == self.spec_client_id(),
    ;

    /// The client's sequence number for this transaction.
    fn nonce(&self) -> (n: Nonce)
        ensures
            n == self.spec_nonce(),
    ;
}

/// The key of a transaction.
pub open spec fn key_of<Tx: MempoolTx>(tx: &Tx) -> TxKey {
    (tx.spec_client_id(), tx.spec_nonce())
}

/// Keys are ordered by client, then by nonce.
pub open spec fn key_le(a: TxKey, b: TxKey) -> bool {
    a.0 < b.0 || (a.0 == b.0 && a.1 <= b.1)
}

impl SplitKey for TxKey {
    type Hi = u16;

    type Lo = u64;

    open spec fn hi(self) -> u16 {
        self.0
    }

    open spec fn lo(self) -> u64 {
        self.1
    }

    open spec fn joined(hi: u16, lo: u64) -> TxKey {
        (hi, lo)
    }

    proof fn lemma_split(self) {
    }

    proof fn lemma_join(hi: u16, lo: u64) {
    }

    fn split(&self) -> (u16, u64) {
        (self.0, self.1)
    }

    fn join(hi: u16, lo: u64) -> TxKey {
        (hi, lo)
    }
}

} // verus!
