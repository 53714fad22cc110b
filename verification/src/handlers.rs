//! The messages that are on their way, by the round they were sent in.
//!
//! Whoever sends a message gets a handler for it, which resolves once the message has arrived or
//! was given up. To drop a handler before that is to cancel the message.

use crate::fnv_map::FnvMap;
use std::collections::VecDeque;
use vstd::prelude::*;

verus! {

/// The handlers that have not resolved, in the order of the messages.
pub open spec fn unresolved<H>(polled: Seq<(H, bool)>) -> Seq<H>
    decreases polled.len(),
{
    if polled.len() == 0 {
        Seq::empty()
    } else if polled.last().1 {
        unresolved(polled.drop_last())
    } else {
        unresolved(polled.drop_last()).push(polled.last().0)
    }
}

/// The handlers of each round.
pub struct Handlers<H> {
    by_round: FnvMap<u64, VecDeque<H>>,
}

impl<H> View for Handlers<H> {
    type V = Map<u64, Seq<H>>;

    closed spec fn view(&self) -> Map<u64, Seq<H>> {
        Map::new(|r: u64| self.by_round@.contains_key(r), |r: u64| self.by_round@[r]@)
    }
}

/// Whether no round is listed without a handler.
pub open spec fn no_empty_round<H>(m: Map<u64, Seq<H>>) -> bool {
    forall|r: u64| #[trigger] m.contains_key(r) ==> m[r].len() > 0
}

impl<H> Handlers<H> {
    /// Nothing was sent yet.
    pub fn new() -> (h: Self)
        ensures
            h@ == Map::<u64, Seq<H>>::empty(),
    {
        let h = Handlers { by_round: FnvMap::new() };
        assert(h@ =~= Map::empty());
        h
    }

    /// A message was sent in this round.
    pub fn remember(&mut self, round: u64, handler: H)
        ensures
            final(self)@ == old(self)@.insert(
                round,
                if old(self)@.contains_key(round) {
                    old(self)@[round].push(handler)
                } else {
                    seq![handler]
                },
            ),
            no_empty_round(old(self)@) ==> no_empty_round(final(self)@),
    {
        let mut all: VecDeque<H> = match self.by_round.remove(round) {
            Some(all) => all,
            None => VecDeque::new(),
        };
        all.push_back(handler);
        self.by_round.insert(round, all);
        proof {
            if !old(self)@.contains_key(round) {
                assert(all@ =~= seq![handler]);
            }
            assert(self@ =~= old(self)@.insert(
                round,
                if old(self)@.contains_key(round) {
                    old(self)@[round].push(handler)
                } else {
                    seq![handler]
                },
            ));
        }
    }

    /// The rounds that have a handler, in no particular order.
    pub fn rounds(&self) -> (r: Vec<u64>)
        ensures
            r@.no_duplicates(),
            r@.to_set() == self@.dom(),
    {
        let r = self.by_round.keys();
        assert(self@.dom() =~= self.by_round@.dom());
        r
    }

    /// Takes the handlers of a round out, to see which have resolved.
    pub fn take(&mut self, round: u64) -> (all: VecDeque<H>)
        ensures
            all@ == (if old(self)@.contains_key(round) {
                old(self)@[round]
            } else {
                Seq::empty()
            }),
            final(self)@ == old(self)@.remove(round),
            no_empty_round(old(self)@) ==> no_empty_round(final(self)@),
    {
        let all: VecDeque<H> = match self.by_round.remove(round) {
            Some(all) => all,
            None => VecDeque::new(),
        };
        assert(self@ =~= old(self)@.remove(round));
        all
    }

    /// Puts the handlers of a round back, each with whether it has resolved: those that have are
    /// dropped, those that have not stay in their order, and a round without any is forgotten.
    pub fn gc_handlers(&mut self, round: u64, polled: VecDeque<(H, bool)>)
        requires
            !old(self)@.contains_key(round),
        ensures
            final(self)@ == (if unresolved(polled@).len() == 0 {
                old(self)@
            } else {
                old(self)@.insert(round, unresolved(polled@))
            }),
            no_empty_round(old(self)@) ==> no_empty_round(final(self)@),
    {
        let n: usize = polled.len();
        let mut rest = polled;
        let mut kept: VecDeque<H> = VecDeque::new();
        let mut i: usize = 0;
        assert(kept@ =~= unresolved(polled@.take(0)));
        while i < n
            invariant
                i <= n,
                n == polled@.len(),
                rest@ == polled@.skip(i as int),
                kept@ == unresolved(polled@.take(i as int)),
            decreases n - i,
        {
            proof {
                assert(polled@.take(i + 1).drop_last() =~= polled@.take(i as int));
            }
            if let Some((handler, resolved)) = rest.pop_front() {
                if !resolved {
                    kept.push_back(handler);
                }
            }
            i = i + 1;
        }
        assert(polled@.take(i as int) =~= polled@);
        if kept.len() > 0 {
            self.by_round.insert(round, kept);
            assert(self@ =~= old(self)@.insert(round, unresolved(polled@)));
        }
    }
}

/// Nothing that is unresolved is dropped, and what is kept stays in order: each has the place
/// after those that are unresolved before it.
pub proof fn law_unresolved_stay<H>(polled: Seq<(H, bool)>, i: int)
    requires
        0 <= i < polled.len(),
        !polled[i].1,
    ensures
        unresolved(polled.take(i)).len() < unresolved(polled).len(),
        unresolved(polled)[unresolved(polled.take(i)).len() as int] == polled[i].0,
    decreases polled.len(),
{
    if i == polled.len() - 1 {
        assert(polled.take(i) =~= polled.drop_last());
    } else {
        law_unresolved_stay(polled.drop_last(), i);
        assert(polled.drop_last().take(i) =~= polled.take(i));
    }
}

/// As many handlers are kept as have not resolved: none if all have, all if none has.
pub proof fn law_resolved_go<H>(polled: Seq<(H, bool)>)
    ensures
        unresolved(polled).len() <= polled.len(),
        (forall|i: int| 0 <= i < polled.len() ==> (#[trigger] polled[i]).1) <==> unresolved(
            polled,
        ).len() == 0,
        (forall|i: int| 0 <= i < polled.len() ==> !(#[trigger] polled[i]).1) ==> unresolved(
            polled,
        ).len() == polled.len(),
    decreases polled.len(),
{
    if polled.len() > 0 {
        let a = polled.drop_last();
        law_resolved_go(a);
        assert forall|i: int| 0 <= i < a.len() implies #[trigger] a[i] == polled[i] by {}
        assert(polled.last() == polled[polled.len() - 1]);
        if unresolved(polled).len() == 0 {
            assert forall|i: int| 0 <= i < polled.len() implies (#[trigger] polled[i]).1 by {
                if i < a.len() {
                    assert(a[i].1);
                }
            }
        }
        if forall|i: int| 0 <= i < polled.len() ==> (#[trigger] polled[i]).1 {
            assert forall|i: int| 0 <= i < a.len() implies (#[trigger] a[i]).1 by {
                assert(polled[i].1);
            }
        }
        if forall|i: int| 0 <= i < polled.len() ==> !(#[trigger] polled[i]).1 {
            assert forall|i: int| 0 <= i < a.len() implies !(#[trigger] a[i]).1 by {
                assert(!polled[i].1);
            }
        }
    }
}

/// Exactly those that have resolved go, whatever the others have done.
pub proof fn law_each_on_its_own<H>(polled: Seq<(H, bool)>, h: H)
    ensures
        unresolved(Seq::<(H, bool)>::empty()) == Seq::<H>::empty(),
        unresolved(polled.push((h, true))) == unresolved(polled),
        unresolved(polled.push((h, false))) == unresolved(polled).push(h),
{
    assert(polled.push((h, true)).drop_last() =~= polled);
    assert(polled.push((h, false)).drop_last() =~= polled);
}

} // verus!
