//! Intake of single transactions.

use std::sync::Arc;
use vstd::prelude::*;

verus! {

/// What comes off the wire.
pub enum Incoming<Tx> {
    /// The stream has ended.
    Closed,
    /// Bytes that are no transaction.
    Undecodable,
    Tx(Arc<Tx>),
}

/// What is done about it.
pub enum IntakeStep<Tx> {
    Stop,
    Skip,
    /// Hand the transaction to the batcher.
    Forward(Arc<Tx>),
}

/// Takes transactions in.
pub struct Receiver;

impl Receiver {
    /// A transaction is handed on as it is; undecodable bytes are passed over; the end of the
    /// stream ends the intake.
    pub fn step<Tx>(incoming: Incoming<Tx>) -> (r: IntakeStep<Tx>)
        ensures
            r == (match incoming {
                Incoming::Closed => IntakeStep::Stop,
                Incoming::Undecodable => IntakeStep::Skip,
                Incoming::Tx(tx) => IntakeStep::Forward(tx),
            }),
    {
        match incoming {
            Incoming::Closed => IntakeStep::Stop,
            Incoming::Undecodable => IntakeStep::Skip,
            Incoming::Tx(tx) => IntakeStep::Forward(tx),
        }
    }
}

} // verus!
