//! Clients that keep a window of transactions under way, and count how many nodes have told
//! them of each block.

use crate::digest::{Digest, DigestMap};
use crate::stats::Latencies;
use vstd::prelude::*;

verus! {

/// Why a client cannot go on.
#[derive(Debug, Clone, Copy, PartialEq, Eq, Structural)]
pub enum Halt {
    /// A count is too large, or would fall below zero.
    Miscount,
}

/// What a client knows of its transactions and of blocks. Times are in nanoseconds.
#[verifier::ext_equal]
pub struct WindowState {
    pub num_faults: usize,
    pub block_size: usize,
    /// How many more transactions can be sent now.
    pub pending: usize,
    /// When each transaction was sent.
    pub sent: Map<Digest, u128>,
    /// How many nodes have told of each block.
    pub counts: Map<Digest, usize>,
    /// The blocks that enough nodes have told of.
    pub finished: Set<Digest>,
    /// When each transaction of a finished block was sent and when the block was finished.
    pub confirmed: Map<Digest, (u128, u128)>,
    /// How many transactions have committed.
    pub num_cmds: u128,
}

/// How many of these transactions were not sent from here.
pub open spec fn strangers(sent: Map<Digest, u128>, txs: Seq<Digest>) -> nat
    decreases txs.len(),
{
    if txs.len() == 0 {
        0
    } else {
        strangers(sent, txs.drop_last()) + if sent.contains_key(txs.last()) {
            0nat
        } else {
            1nat
        }
    }
}

/// The latencies after these transactions were confirmed.
pub open spec fn timed(
    m: Map<Digest, (u128, u128)>,
    sent: Map<Digest, u128>,
    txs: Seq<Digest>,
    now: u128,
) -> Map<Digest, (u128, u128)>
    decreases txs.len(),
{
    if txs.len() == 0 {
        m
    } else {
        let t = timed(m, sent, txs.drop_last(), now);
        if sent.contains_key(txs.last()) {
            t.insert(txs.last(), (sent[txs.last()], now))
        } else {
            t
        }
    }
}

impl WindowState {
    /// How many nodes have told of a block, this time counted.
    pub open spec fn count(self, block: Digest) -> int {
        1 + if self.counts.contains_key(block) {
            self.counts[block] as int
        } else {
            0
        }
    }

    /// The client after a node told of a block, and whether the block is finished by that: it
    /// is once more nodes than there are faults have told of it, and only then. The window
    /// opens for a full block of new transactions, and a full block counts as committed, less
    /// what was not sent from here.
    pub open spec fn told(self, block: Digest, txs: Seq<Digest>, now: u128) -> Result<
        (Self, bool),
        Halt,
    > {
        if self.count(block) > usize::MAX {
            Err(Halt::Miscount)
        } else {
            let s = WindowState {
                counts: self.counts.insert(block, self.count(block) as usize),
                ..self
            };
            if self.count(block) <= self.num_faults || self.finished.contains(block) {
                Ok((s, false))
            } else if s.pending + s.block_size > usize::MAX || s.num_cmds + s.block_size
                > u128::MAX || strangers(s.sent, txs) > s.num_cmds + s.block_size {
                Err(Halt::Miscount)
            } else {
                Ok(
                    (
                        WindowState {
                            pending: (s.pending + s.block_size) as usize,
                            num_cmds: (s.num_cmds + s.block_size - strangers(s.sent, txs)) as u128,
                            confirmed: timed(s.confirmed, s.sent, txs, now),
                            finished: s.finished.insert(block),
                            ..s
                        },
                        true,
                    ),
                )
            }
        }
    }
}

/// A client with a window.
pub struct WindowClient {
    num_faults: usize,
    block_size: usize,
    pending: usize,
    time_map: DigestMap<u128>,
    count_map: DigestMap<usize>,
    finished_map: DigestMap<()>,
    latency_map: Latencies,
    num_cmds: u128,
}

impl View for WindowClient {
    type V = WindowState;

    closed spec fn view(&self) -> WindowState {
        WindowState {
            num_faults: self.num_faults,
            block_size: self.block_size,
            pending: self.pending,
            sent: self.time_map@,
            counts: self.count_map@,
            finished: self.finished_map@.dom(),
            confirmed: self.latency_map@,
            num_cmds: self.num_cmds,
        }
    }
}

impl WindowClient {
    /// A client that has sent nothing, with its whole window open.
    pub fn new(window: usize, num_faults: usize, block_size: usize) -> (c: Self)
        ensures
            c@ == (WindowState {
                num_faults,
                block_size,
                pending: window,
                sent: Map::empty(),
                counts: Map::empty(),
                finished: Set::empty(),
                confirmed: Map::empty(),
                num_cmds: 0,
            }),
    {
        let c = WindowClient {
            num_faults,
            block_size,
            pending: window,
            time_map: DigestMap::new(),
            count_map: DigestMap::new(),
            finished_map: DigestMap::new(),
            latency_map: DigestMap::new(),
            num_cmds: 0,
        };
        assert(c@.finished =~= Set::empty());
        c
    }

    /// Whether a transaction can be sent now.
    pub fn can_send(&self) -> (r: bool)
        ensures
            r == (self@.pending > 0),
    {
        self.pending > 0
    }

    /// Notes that a transaction was sent; the window has room for it.
    pub fn note_sent(&mut self, hash: Digest, now: u128)
        requires
            old(self)@.pending > 0,
        ensures
            final(self)@ == (WindowState {
                sent: old(self)@.sent.insert(hash, now),
                pending: (old(self)@.pending - 1) as usize,
                ..old(self)@
            }),
    {
        self.time_map.insert(hash, now);
        self.pending = self.pending - 1;
    }

    /// Hears of a committed block from one more node. Hands back whether the block is finished
    /// by that.
    pub fn on_block(&mut self, block: Digest, txs: &Vec<Digest>, now: u128) -> (r: Result<bool, Halt>)
        ensures
            match r {
                Ok(done) => old(self)@.told(block, txs@, now) == Ok::<(WindowState, bool), Halt>(
                    (final(self)@, done),
                ),
                Err(h) => old(self)@.told(block, txs@, now) == Err::<(WindowState, bool), Halt>(h),
            },
    {
        let seen: usize = match self.count_map.get(block) {
            Some(n) => *n,
            None => 0,
        };
        if seen == usize::MAX {
            return Err(Halt::Miscount);
        }
        let entry: usize = seen + 1;
        self.count_map.insert(block, entry);
        if entry <= self.num_faults {
            return Ok(false);
        }
        if self.finished_map.contains_key(block) {
            return Ok(false);
        }
        let ghost s1 = self@;
        let pending: usize = match self.pending.checked_add(self.block_size) {
            Some(n) => n,
            None => {
                return Err(Halt::Miscount);
            },
        };
        let mut num_cmds: u128 = match self.num_cmds.checked_add(self.block_size as u128) {
            Some(n) => n,
            None => {
                return Err(Halt::Miscount);
            },
        };
        let ghost full = num_cmds;
        let mut i: usize = 0;
        assert(txs@.take(0) =~= Seq::empty());
        while i < txs.len()
            invariant
                i <= txs@.len(),
                self@ == (WindowState {
                    confirmed: timed(s1.confirmed, s1.sent, txs@.take(i as int), now),
                    ..s1
                }),
                num_cmds + strangers(s1.sent, txs@.take(i as int)) == full,
                strangers(s1.sent, txs@) > full ==> old(self)@.told(block, txs@, now) == Err::<
                    (WindowState, bool),
                    Halt,
                >(Halt::Miscount),
            decreases txs@.len() - i,
        {
            let t: Digest = txs[i];
            proof {
                assert(txs@.take(i + 1).drop_last() =~= txs@.take(i as int));
                assert(txs@.take(i + 1).last() == t);
            }
            let sent: Option<u128> = match self.time_map.get(t) {
                Some(t0) => Some(*t0),
                None => None,
            };
            match sent {
                Some(t0) => {
                    self.latency_map.insert(t, (t0, now));
                },
                None => {
                    if num_cmds == 0 {
                        proof {
                            lemma_strangers_grow(s1.sent, txs@, i + 1);
                        }
                        return Err(Halt::Miscount);
                    }
                    num_cmds = num_cmds - 1;
                },
            }
            i = i + 1;
        }
        assert(txs@.take(i as int) =~= txs@);
        self.pending = pending;
        self.num_cmds = num_cmds;
        self.finished_map.insert(block, ());
        assert(self@.finished =~= s1.finished.insert(block));
        Ok(true)
    }

    /// Whether as many transactions as were to be waited for have committed.
    pub fn done(&self, metric: u64) -> (r: bool)
        ensures
            r == (self@.num_cmds >= metric),
    {
        self.num_cmds >= metric as u128
    }

    /// When each confirmed transaction was sent and confirmed.
    pub fn latencies(&self) -> (m: &Latencies)
        ensures
            m@ == self@.confirmed,
    {
        &self.latency_map
    }
}

/// More transactions have no fewer strangers among them.
proof fn lemma_strangers_grow(sent: Map<Digest, u128>, txs: Seq<Digest>, n: int)
    requires
        0 <= n <= txs.len(),
    ensures
        strangers(sent, txs.take(n)) <= strangers(sent, txs),
    decreases txs.len() - n,
{
    if n < txs.len() {
        assert(txs.take(n + 1).drop_last() =~= txs.take(n));
        lemma_strangers_grow(sent, txs, n + 1);
    } else {
        assert(txs.take(n) =~= txs);
    }
}

/// A block is finished at most once, and only after more nodes than there are faults have told
/// of it.
pub proof fn law_finished_once(
    s: WindowState,
    block: Digest,
    txs: Seq<Digest>,
    now: u128,
    again: Seq<Digest>,
    later: u128,
)
    requires
        s.told(block, txs, now) is Ok,
        s.told(block, txs, now)->Ok_0.1,
    ensures
        s.count(block) > s.num_faults,
        s.told(block, txs, now)->Ok_0.0.told(block, again, later) matches Ok((t, done)) ==> !done,
{
}

/// Those of the transactions that were not sent from here.
pub open spec fn foreign(sent: Map<Digest, u128>, txs: Seq<Digest>) -> Seq<Digest> {
    txs.filter(|d: Digest| !sent.contains_key(d))
}

/// Counting strangers is counting: it gives how many of the transactions were not sent from here.
pub proof fn law_strangers_are_counted(sent: Map<Digest, u128>, txs: Seq<Digest>)
    ensures
        strangers(sent, txs) == foreign(sent, txs).len(),
        (forall|i: int| 0 <= i < txs.len() ==> sent.contains_key(#[trigger] txs[i])) <==> strangers(
            sent,
            txs,
        ) == 0,
    decreases txs.len(),
{
    reveal(Seq::filter);
    if txs.len() > 0 {
        let a = txs.drop_last();
        law_strangers_are_counted(sent, a);
        assert(txs[txs.len() - 1] == txs.last());
        if forall|i: int| 0 <= i < txs.len() ==> sent.contains_key(#[trigger] txs[i]) {
            assert forall|i: int| 0 <= i < a.len() implies sent.contains_key(#[trigger] a[i]) by {
                assert(a[i] == txs[i]);
            }
        }
        if strangers(sent, txs) == 0 {
            assert forall|i: int| 0 <= i < txs.len() implies sent.contains_key(
                #[trigger] txs[i],
            ) by {
                if i < a.len() {
                    assert(a[i] == txs[i]);
                }
            }
        }
    }
}

/// Each transaction of a finished block that was sent from here is confirmed, with when it was sent
/// and when the block was finished; nothing else is changed by that.
pub proof fn law_own_txs_are_timed(
    m: Map<Digest, (u128, u128)>,
    sent: Map<Digest, u128>,
    txs: Seq<Digest>,
    now: u128,
    d: Digest,
)
    ensures
        txs.contains(d) && sent.contains_key(d) ==> timed(m, sent, txs, now).contains_key(d)
            && timed(m, sent, txs, now)[d] == (sent[d], now),
        !txs.contains(d) || !sent.contains_key(d) ==> timed(m, sent, txs, now).contains_key(d)
            == m.contains_key(d) && timed(m, sent, txs, now)[d] == m[d],
    decreases txs.len(),
{
    if txs.len() > 0 {
        let a = txs.drop_last();
        law_own_txs_are_timed(m, sent, a, now, d);
        if txs.contains(d) && d != txs.last() {
            let i = choose|i: int| 0 <= i < txs.len() && txs[i] == d;
            assert(a[i] == d);
        }
        if a.contains(d) {
            let i = choose|i: int| 0 <= i < a.len() && a[i] == d;
            assert(txs[i] == d);
        }
        assert(txs[txs.len() - 1] == txs.last());
    }
}

/// A report finishes a block if and only if it is at least the `num_faults + 1`st for it and the
/// block was not finished before. Then the window opens for exactly `block_size` more transactions,
/// and `block_size` transactions, less those of the block that were not sent from here, count as
/// committed. A report that finishes nothing leaves both as they were.
pub proof fn law_finished_block_reopens_window(
    s: WindowState,
    block: Digest,
    txs: Seq<Digest>,
    now: u128,
    heard: int,
    own: int,
)
    requires
        heard == if s.counts.contains_key(block) {
            s.counts[block] as int
        } else {
            0
        },
        own == s.block_size - foreign(s.sent, txs).len(),
    ensures
        ({
            let finishes = heard + 1 > s.num_faults && !s.finished.contains(block);
            let fits = {
                &&& s.pending + s.block_size <= usize::MAX
                &&& s.num_cmds + s.block_size <= u128::MAX
                &&& s.num_cmds + own >= 0
            };
            &&& s.told(block, txs, now) is Ok <==> heard < usize::MAX && (finishes ==> fits)
            &&& s.told(block, txs, now) matches Ok((t, done)) ==> {
                &&& done == finishes
                &&& t.counts == s.counts.insert(block, (heard + 1) as usize)
                &&& finishes ==> t.pending == s.pending + s.block_size
                &&& finishes ==> t.num_cmds == s.num_cmds + own
                &&& finishes ==> t.finished == s.finished.insert(block)
                &&& !finishes ==> t.pending == s.pending && t.num_cmds == s.num_cmds && t.finished
                    == s.finished && t.confirmed == s.confirmed
                &&& forall|d: Digest|
                    finishes && txs.contains(d) && s.sent.contains_key(d)
                        ==> #[trigger] t.confirmed.contains_key(d) && t.confirmed[d] == (
                        s.sent[d],
                        now,
                    )
                &&& forall|d: Digest|
                    !txs.contains(d) || !s.sent.contains_key(d) ==> #[trigger] t.confirmed.contains_key(d)
                        == s.confirmed.contains_key(d) && t.confirmed[d]
                        == s.confirmed[d]
                &&& t.sent == s.sent
                &&& t.num_faults == s.num_faults
                &&& t.block_size == s.block_size
            }
        }),
{
    law_strangers_are_counted(s.sent, txs);
    let m = timed(s.confirmed, s.sent, txs, now);
    assert forall|d: Digest| txs.contains(d) && s.sent.contains_key(
        d,
    ) implies #[trigger] m.contains_key(d) && m[d] == (s.sent[d], now) by {
        law_own_txs_are_timed(s.confirmed, s.sent, txs, now, d);
    }
    assert forall|d: Digest| !txs.contains(d) || !s.sent.contains_key(
        d,
    ) implies #[trigger] m.contains_key(d) == s.confirmed.contains_key(d) && m[d]
        == s.confirmed[d] by {
        law_own_txs_are_timed(s.confirmed, s.sent, txs, now, d);
    }
}

} // verus!
