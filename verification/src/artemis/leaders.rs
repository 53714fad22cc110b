//! Who leads the next round.
//!
//! The leaders of the last `f` rounds are out of the draw. Whoever is drawn takes the place of
//! the one that has been out the longest.

use crate::chain::block::Round;
use crate::digest::{be_bytes, be_value, Digest};
use crate::hash::{do_hash, sha256};
use crate::mempool::tx::Replica;
use linked_hash_map::LinkedHashMap;
use vstd::prelude::*;

verus! {

/// The hash map of the `linked-hash-map` crate that remembers the order of insertion; opaque
/// here.
#[verifier::external_type_specification]
#[verifier::external_body]
#[verifier::reject_recursive_types(K)]
#[verifier::reject_recursive_types(V)]
#[verifier::reject_recursive_types(S)]
pub struct ExLinkedHashMap<K, V, S>(LinkedHashMap<K, V, S>);

/// The keys of a `LinkedHashMap`, the one that was inserted first at the front.
pub uninterp spec fn queue_of(m: LinkedHashMap<u16, ()>) -> Seq<u16>;

/// `LinkedHashMap::with_capacity`: a map without entries.
#[verifier::external_body]
fn linked_with_capacity(capacity: usize) -> (m: LinkedHashMap<u16, ()>)
    requires
        capacity <= u16::MAX,
    ensures
        queue_of(m) == Seq::<u16>::empty(),
{
    LinkedHashMap::with_capacity(capacity)
}

/// `LinkedHashMap::insert`: the key is now the last one, wherever it was before.
#[verifier::external_body]
fn linked_insert(m: &mut LinkedHashMap<u16, ()>, k: u16)
    ensures
        queue_of(*final(m)) == queue_of(*old(m)).remove_value(k).push(k),
{
    m.insert(k, ());
}

/// `LinkedHashMap::pop_front`: takes the first key out, if there is one.
#[verifier::external_body]
fn linked_pop_front(m: &mut LinkedHashMap<u16, ()>) -> (r: Option<u16>)
    ensures
        queue_of(*final(m)) == (if queue_of(*old(m)).len() > 0 {
            queue_of(*old(m)).skip(1)
        } else {
            queue_of(*old(m))
        }),
        r == (if queue_of(*old(m)).len() > 0 { Some(queue_of(*old(m))[0]) } else { None }),
{
    m.pop_front().map(|e| e.0)
}

/// Who has led lately, and who can be drawn.
#[verifier::ext_equal]
pub struct Draw {
    /// The leaders of the last rounds, the one that led first at the front.
    pub recent: Seq<Replica>,
    /// Those that can be drawn.
    pub eligible: Seq<Replica>,
}

/// The number that decides the draw for the round after `round`: the last eight bytes of the
/// hash of that round's number.
pub open spec fn lot(round: Round) -> nat {
    be_value(sha256(be_bytes((round + 1) as nat, 8)).skip(24))
}

impl Draw {
    /// There is somebody to draw and somebody out of the draw, and nobody is both.
    pub open spec fn sound(self) -> bool {
        &&& self.recent.len() > 0
        &&& self.eligible.len() > 0
        &&& self.recent.no_duplicates()
        &&& self.eligible.no_duplicates()
        &&& forall|r: Replica|
            #![trigger self.recent.contains(r)]
            #![trigger self.eligible.contains(r)]
            !(self.recent.contains(r) && self.eligible.contains(r))
    }

    /// Everybody below `n` is either out of the draw or in it, once.
    pub open spec fn inv(self, n: nat) -> bool {
        &&& self.sound()
        &&& forall|r: Replica|
            #![trigger self.recent.contains(r)]
            #![trigger self.eligible.contains(r)]
            (self.recent.contains(r) || self.eligible.contains(r)) <==> r < n
    }

    /// Which of the eligible is drawn for the round after `round`.
    pub open spec fn index(self, round: Round) -> int {
        (lot(round) % self.eligible.len()) as int
    }

    /// Who leads the round after `round`.
    pub open spec fn next_leader(self, round: Round) -> Replica {
        self.eligible[self.index(round)]
    }

    /// The draw after the leader of the round after `round` was drawn.
    pub open spec fn drawn(self, round: Round) -> Self {
        Draw {
            recent: self.recent.skip(1).push(self.next_leader(round)),
            eligible: self.eligible.update(self.index(round), self.recent[0]),
        }
    }
}

impl Draw {
    /// The draw after the leaders of this many rounds after `round` were drawn.
    pub open spec fn drawn_times(self, round: Round, k: nat) -> Self
        decreases k,
    {
        if k == 0 {
            self
        } else {
            self.drawn_times(round, (k - 1) as nat).drawn((round + k - 1) as Round)
        }
    }

    /// Who leads the round that is `k + 1` rounds after `round`.
    pub open spec fn leader_after(self, round: Round, k: nat) -> Replica {
        self.drawn_times(round, k).next_leader((round + k) as Round)
    }
}

/// Draws the leaders.
pub struct Leaders {
    last_f_leaders: LinkedHashMap<Replica, ()>,
    eligible_leaders: Vec<Replica>,
}

impl View for Leaders {
    type V = Draw;

    closed spec fn view(&self) -> Draw {
        Draw { recent: queue_of(self.last_f_leaders), eligible: self.eligible_leaders@ }
    }
}

/// The ids from `a` up to `b`.
pub open spec fn ids(a: int, b: int) -> Seq<Replica> {
    Seq::new((b - a) as nat, |i: int| (a + i) as Replica)
}

impl Leaders {
    /// The first `num_faults` nodes have led lately; the others can be drawn.
    pub fn new(num_faults: u16, num_nodes: u16) -> (l: Self)
        requires
            0 < num_faults < num_nodes,
        ensures
            l@ == (Draw {
                recent: ids(0, num_faults as int),
                eligible: ids(num_faults as int, num_nodes as int),
            }),
            l@.inv(num_nodes as nat),
    {
        let mut last_f_leaders = linked_with_capacity(num_nodes as usize);
        let mut i: u16 = 0;
        assert(queue_of(last_f_leaders) =~= ids(0, 0));
        while i < num_faults
            invariant
                i <= num_faults,
                queue_of(last_f_leaders) == ids(0, i as int),
            decreases num_faults - i,
        {
            proof {
                let q = ids(0, i as int);
                assert(!q.contains(i));
                lemma_remove_absent(q, i);
                assert(q.push(i) =~= ids(0, i + 1));
            }
            linked_insert(&mut last_f_leaders, i);
            i = i + 1;
        }
        let mut eligible_leaders: Vec<Replica> = Vec::new();
        assert(eligible_leaders@ =~= ids(num_faults as int, i as int));
        while i < num_nodes
            invariant
                num_faults <= i <= num_nodes,
                eligible_leaders@ == ids(num_faults as int, i as int),
            decreases num_nodes - i,
        {
            eligible_leaders.push(i);
            assert(eligible_leaders@ =~= ids(num_faults as int, i + 1));
            i = i + 1;
        }
        let l = Leaders { last_f_leaders, eligible_leaders };
        proof {
            assert forall|r: Replica| #[trigger] l@.recent.contains(r) <==> r < num_faults by {
                if r < num_faults {
                    assert(l@.recent[r as int] == r);
                }
            }
            assert forall|r: Replica| #[trigger] l@.eligible.contains(r) <==> num_faults <= r
                < num_nodes by {
                if num_faults <= r < num_nodes {
                    assert(l@.eligible[r - num_faults] == r);
                }
            }
        }
        l
    }

    /// Who leads the round after `round`, and which of the eligible that is. The number of the
    /// round, in eight big-endian bytes, is hashed; the last eight bytes of the hash decide.
    fn compute_next_round_leader(&self, round: Round) -> (r: (Replica, usize))
        requires
            round < u64::MAX,
            self@.eligible.len() > 0,
        ensures
            r.1 == self@.index(round),
            r.1 < self@.eligible.len(),
            r.0 == self@.next_leader(round),
    {
        let data = be_bytes_of(round + 1);
        let h: Digest = do_hash(data.as_slice());
        let n: u64 = self.eligible_leaders.len() as u64;
        let idx: usize = (h.low_u64() % n) as usize;
        (self.eligible_leaders[idx], idx)
    }

    /// Who leads the round after `round`.
    pub fn next_round_leader(&self, round: Round) -> (r: Replica)
        requires
            round < u64::MAX,
            self@.eligible.len() > 0,
        ensures
            r == self@.next_leader(round),
    {
        self.compute_next_round_leader(round).0
    }

    /// Draws the leader of the round after `round`.
    pub fn draw(&mut self, round: Round) -> (r: Replica)
        requires
            round < u64::MAX,
            old(self)@.sound(),
        ensures
            final(self)@ == old(self)@.drawn(round),
            final(self)@.sound(),
            r == old(self)@.next_leader(round),
    {
        let ghost d = self@;
        let (leader, idx) = self.compute_next_round_leader(round);
        proof {
            assert(d.eligible.contains(leader)) by {
                assert(d.eligible[idx as int] == leader);
            }
            assert(!d.recent.contains(leader));
            assert(!d.recent.skip(1).contains(leader)) by {
                if d.recent.skip(1).contains(leader) {
                    let i = choose|i: int|
                        0 <= i < d.recent.skip(1).len() && d.recent.skip(1)[i] == leader;
                    assert(d.recent[i + 1] == leader);
                }
            }
            lemma_remove_absent(d.recent.skip(1), leader);
        }
        if let Some(again) = linked_pop_front(&mut self.last_f_leaders) {
            linked_insert(&mut self.last_f_leaders, leader);
            self.eligible_leaders.set(idx, again);
        }
        assert(self@ =~= d.drawn(round));
        proof {
            lemma_drawn_sound(d, round);
        }
        leader
    }
}

/// The eight big-endian bytes of a number.
fn be_bytes_of(v: u64) -> (b: Vec<u8>)
    ensures
        b@ == be_bytes(v as nat, 8),
{
    let mut b: Vec<u8> = Vec::new();
    push_be(&mut b, v, 8);
    assert(b@ =~= be_bytes(v as nat, 8));
    b
}

/// Appends the `n` low bytes of `v`, most significant first.
fn push_be(out: &mut Vec<u8>, v: u64, n: u8)
    ensures
        final(out)@ == old(out)@ + be_bytes(v as nat, n as nat),
    decreases n,
{
    if n > 0 {
        push_be(out, v / 256, n - 1);
        out.push((v % 256) as u8);
        assert(out@ =~= old(out)@ + be_bytes(v as nat, n as nat));
    } else {
        assert(out@ =~= old(out)@ + be_bytes(v as nat, n as nat));
    }
}

/// Removing what is not there changes nothing.
proof fn lemma_remove_absent(s: Seq<u16>, k: u16)
    requires
        !s.contains(k),
    ensures
        s.remove_value(k) == s,
{
    s.index_of_first_ensures(k);
}

/// Every draw keeps everybody: each node is out of the draw or in it, once, and the number of
/// those that are out stays the same.
pub proof fn law_draw_keeps_everybody(d: Draw, round: Round, n: nat)
    requires
        d.inv(n),
    ensures
        d.drawn(round).inv(n),
        d.drawn(round).recent.len() == d.recent.len(),
        d.drawn(round).eligible.len() == d.eligible.len(),
        d.next_leader(round) < n,
{
    lemma_drawn_sound(d, round);
    assert(d.eligible.contains(d.next_leader(round)));
    assert(d.recent.contains(d.recent[0]));
}

/// A draw swaps the leader that is drawn for the one that was out the longest.
proof fn lemma_drawn_sound(d: Draw, round: Round)
    requires
        d.sound(),
    ensures
        d.drawn(round).sound(),
        d.eligible[d.index(round)] == d.next_leader(round),
        0 <= d.index(round) < d.eligible.len(),
        forall|r: Replica| #[trigger]
            d.drawn(round).recent.contains(r) <==> r == d.next_leader(round) || (d.recent.contains(
                r,
            ) && r != d.recent[0]),
        forall|r: Replica| #[trigger]
            d.drawn(round).eligible.contains(r) <==> r == d.recent[0] || (d.eligible.contains(r)
                && r != d.next_leader(round)),
{
    let i = d.index(round);
    let l = d.next_leader(round);
    let e = d.drawn(round);
    let back = d.recent[0];
    assert(d.eligible.contains(l));
    assert(d.recent.contains(back));
    assert forall|r: Replica| #[trigger] e.recent.contains(r) <==> r == l || (d.recent.contains(r)
        && r != back) by {
        if r == l {
            assert(e.recent[e.recent.len() - 1] == l);
        } else if d.recent.contains(r) && r != back {
            let k = choose|k: int| 0 <= k < d.recent.len() && d.recent[k] == r;
            assert(e.recent[k - 1] == r);
        }
        if e.recent.contains(r) && r != l {
            let k = choose|k: int| 0 <= k < e.recent.len() && e.recent[k] == r;
            assert(d.recent[k + 1] == r);
        }
    }
    assert forall|r: Replica| #[trigger] e.eligible.contains(r) <==> r == back || (
    d.eligible.contains(r) && r != l) by {
        if r == back {
            assert(e.eligible[i] == back);
        } else if d.eligible.contains(r) && r != l {
            let k = choose|k: int| 0 <= k < d.eligible.len() && d.eligible[k] == r;
            assert(e.eligible[k] == r);
        }
        if e.eligible.contains(r) && r != back {
            let k = choose|k: int| 0 <= k < e.eligible.len() && e.eligible[k] == r;
            assert(d.eligible[k] == r);
            assert(k != i);
        }
    }
    assert forall|a: int, b: int| 0 <= a < b < e.recent.len() implies e.recent[a]
        != e.recent[b] by {
        assert(e.recent[a] == d.recent[a + 1]);
        if b < e.recent.len() - 1 {
            assert(e.recent[b] == d.recent[b + 1]);
        } else {
            assert(d.recent.contains(d.recent[a + 1]));
        }
    }
    assert forall|a: int, b: int| 0 <= a < b < e.eligible.len() implies e.eligible[a]
        != e.eligible[b] by {
        if a == i {
            assert(d.eligible.contains(d.eligible[b]));
        } else if b == i {
            assert(d.eligible.contains(d.eligible[a]));
        }
    }
}

/// Whoever is drawn has not led in any of the last rounds that are remembered, and is not drawn
/// again as long as it is remembered.
pub proof fn law_leader_rests(d: Draw, round: Round, n: nat)
    requires
        d.inv(n),
    ensures
        !d.recent.contains(d.next_leader(round)),
        d.drawn(round).recent.last() == d.next_leader(round),
        forall|later: Round| #[trigger]
            d.drawn(round).next_leader(later) != d.next_leader(round),
{
    let l = d.next_leader(round);
    assert(d.eligible[d.index(round)] == l);
    assert(d.eligible.contains(l));
    law_draw_keeps_everybody(d, round, n);
    let e = d.drawn(round);
    assert(e.recent[e.recent.len() - 1] == l);
    assert(e.recent.contains(l));
    assert forall|later: Round| #[trigger] e.next_leader(later) != l by {
        assert(e.eligible.contains(e.eligible[e.index(later)]));
    }
}

/// However many leaders are drawn, each node stays out of the draw or in it, once, and the number
/// of those that are out stays the same.
pub proof fn law_draws_keep_everybody(d: Draw, round: Round, n: nat, k: nat)
    requires
        d.inv(n),
    ensures
        d.drawn_times(round, k).inv(n),
        d.drawn_times(round, k).recent.len() == d.recent.len(),
        d.drawn_times(round, k).eligible.len() == d.eligible.len(),
        d.leader_after(round, k) < n,
    decreases k,
{
    if k > 0 {
        law_draws_keep_everybody(d, round, n, (k - 1) as nat);
        law_draw_keeps_everybody(
            d.drawn_times(round, (k - 1) as nat),
            (round + k - 1) as Round,
            n,
        );
    }
    law_draw_keeps_everybody(d.drawn_times(round, k), (round + k) as Round, n);
}

/// Whoever is drawn moves to the front of those that are out as others are drawn.
proof fn lemma_out_for(d: Draw, round: Round, n: nat, i: nat, m: nat)
    requires
        d.inv(n),
        m < d.recent.len(),
    ensures
        d.drawn_times(round, (i + 1 + m) as nat).recent.len() == d.recent.len(),
        d.drawn_times(round, (i + 1 + m) as nat).recent[d.recent.len() - 1 - m] == d.leader_after(
            round,
            i,
        ),
    decreases m,
{
    let before = d.drawn_times(round, (i + m) as nat);
    law_draws_keep_everybody(d, round, n, (i + m) as nat);
    law_draws_keep_everybody(d, round, n, (i + 1 + m) as nat);
    let after = d.drawn_times(round, (i + 1 + m) as nat);
    assert(after == before.drawn((round + i + m) as Round));
    if m > 0 {
        lemma_out_for(d, round, n, i, (m - 1) as nat);
        let at = d.recent.len() - 1 - m;
        assert(after.recent[at] == before.recent[at + 1]);
    }
}

/// Any two rounds that are no further apart than there are nodes out of the draw have different
/// leaders: with `f` of them, any `f + 1` rounds in a row have `f + 1` leaders.
pub proof fn law_rounds_in_a_row_differ(d: Draw, round: Round, n: nat, i: nat, j: nat)
    requires
        d.inv(n),
        i < j <= i + d.recent.len(),
    ensures
        d.leader_after(round, i) != d.leader_after(round, j),
{
    let m = (j - i - 1) as nat;
    lemma_out_for(d, round, n, i, m);
    law_draws_keep_everybody(d, round, n, j);
    let e = d.drawn_times(round, j);
    law_leader_rests(e, (round + j) as Round, n);
    assert(e.recent.contains(e.recent[d.recent.len() - 1 - m]));
}

} // verus!
