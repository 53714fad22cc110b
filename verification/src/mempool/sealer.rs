//! When a batch is full.

use vstd::prelude::*;

verus! {

/// A rule that is asked after each transaction whether the batch is to be sealed now.
pub trait Sealer<Tx>: Send + 'static {
    /// Whether a queue of this length is sealed.
    spec fn seals(&self, queue_len: usize) -> bool;

    /// Whether a queue of this length is sealed.
    fn should_seal(&self, queue_len: usize) -> (r: bool)
        ensures
            r == self.seals(queue_len),
    ;
}

/// Seals once there are `threshold` transactions.
pub struct CountSealer {
    pub threshold: usize,
}

impl CountSealer {
    /// A sealer for batches of `threshold` transactions; a batch holds at least one.
    pub fn new(threshold: usize) -> (s: Self)
        requires
            threshold > 0,
        ensures
            s.threshold == threshold,
    {
        CountSealer { threshold }
    }
}

impl<Tx> Sealer<Tx> for CountSealer {
    open spec fn seals(&self, queue_len: usize) -> bool {
        queue_len >= self.threshold
    }

    fn should_seal(&self, queue_len: usize) -> (r: bool) {
        queue_len >= self.threshold
    }
}

/// A queue is sealed if and only if it has reached the threshold; so a queue that is sealed as soon
/// as it can be makes a batch of exactly as many transactions as the threshold says.
pub proof fn law_sealed_at_the_threshold<Tx>(s: CountSealer, n: usize)
    ensures
        Sealer::<Tx>::seals(&s, n) <==> n >= s.threshold,
        n > 0 && Sealer::<Tx>::seals(&s, n) && !Sealer::<Tx>::seals(&s, (n - 1) as usize) ==> n
            == s.threshold,
{
}

} // verus!
