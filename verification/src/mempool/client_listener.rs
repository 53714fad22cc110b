//! Intake of client messages for the keyed mempool.

use crate::digest::Digest;
use crate::hash::{do_hash, hash_of};
use crate::mempool::messages::{ClientMsg, PeerAddr};
use std::sync::Arc;
use vstd::prelude::*;

verus! {

/// What a client message leads to.
pub enum ListenerAction<Tx> {
    /// Tell the confirmation router where to confirm the transaction with this hash.
    Register(Digest, PeerAddr),
    /// Hand the batcher a transaction and its serialized size.
    Submit(Arc<Tx>, usize),
}

/// The transactions of a client message.
pub open spec fn submitted<Tx>(msg: ClientMsg<Tx>) -> Seq<Arc<Tx>> {
    match msg {
        ClientMsg::NewTx { tx, .. } => seq![tx],
        ClientMsg::NewBatch { batch, .. } => batch@,
        ClientMsg::Confirmation(_) => Seq::empty(),
    }
}

/// Where a client wants its confirmations.
pub open spec fn reply_address<Tx>(msg: ClientMsg<Tx>) -> PeerAddr
    recommends
        !(msg is Confirmation),
{
    match msg {
        ClientMsg::NewTx { reply_to, .. } => reply_to,
        ClientMsg::NewBatch { reply_to, .. } => reply_to,
        ClientMsg::Confirmation(_) => arbitrary(),
    }
}

/// For each transaction in turn: it is registered, then submitted.
pub open spec fn fan_out<Tx>(
    txs: Seq<Arc<Tx>>,
    reply_to: PeerAddr,
    wires: Seq<Vec<u8>>,
) -> Seq<ListenerAction<Tx>> {
    Seq::new(
        2 * txs.len(),
        |i: int|
            if i % 2 == 0 {
                ListenerAction::Register(hash_of(wires[i / 2]@), reply_to)
            } else {
                ListenerAction::Submit(txs[i / 2], wires[i / 2]@.len() as usize)
            },
    )
}

/// Registers and submits one transaction after another.
fn fan_out_all<Tx>(
    txs: &Vec<Arc<Tx>>,
    reply_to: PeerAddr,
    wires: &Vec<Vec<u8>>,
) -> (actions: Vec<ListenerAction<Tx>>)
    requires
        wires@.len() == txs@.len(),
    ensures
        actions@ == fan_out(txs@, reply_to, wires@),
{
    let mut actions: Vec<ListenerAction<Tx>> = Vec::new();
    let mut i: usize = 0;
    while i < txs.len()
        invariant
            i <= txs@.len(),
            wires@.len() == txs@.len(),
            actions@ == fan_out(txs@.take(i as int), reply_to, wires@),
        decreases txs@.len() - i,
    {
        actions.push(ListenerAction::Register(do_hash(wires[i].as_slice()), reply_to));
        actions.push(ListenerAction::Submit(Arc::clone(&txs[i]), wires[i].len()));
        i = i + 1;
        assert(actions@ =~= fan_out(txs@.take(i as int), reply_to, wires@));
    }
    assert(txs@.take(i as int) =~= txs@);
    actions
}

/// Handles a client message. `wires` holds its transactions in serialized form. A confirmation
/// is for clients only and leads to nothing.
pub fn on_client_msg<Tx>(msg: ClientMsg<Tx>, wires: &Vec<Vec<u8>>) -> (actions: Vec<
    ListenerAction<Tx>,
>)
    requires
        wires@.len() == submitted(msg).len(),
    ensures
        msg is Confirmation ==> actions@ == Seq::<ListenerAction<Tx>>::empty(),
        !(msg is Confirmation) ==> actions@ == fan_out(
            submitted(msg),
            reply_address(msg),
            wires@,
        ),
{
    match msg {
        ClientMsg::NewBatch { batch, reply_to } => fan_out_all(&batch, reply_to, wires),
        ClientMsg::NewTx { tx, reply_to } => {
            let mut one: Vec<Arc<Tx>> = Vec::new();
            one.push(tx);
            assert(one@ =~= seq![tx]);
            fan_out_all(&one, reply_to, wires)
        },
        ClientMsg::Confirmation(_) => Vec::new(),
    }
}

} // verus!
