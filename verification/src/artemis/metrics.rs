//! Counters and coarse histograms of what a reactor does.
//!
//! Times are nanoseconds since the metrics were made, handed in by the caller. Counters wrap.

use vstd::prelude::*;

verus! {

/// How many buckets a histogram has.
pub const NUM_BUCKETS: usize = 9;

/// The upper end of a bucket, in microseconds; the last bucket has none.
pub open spec fn bucket_end(i: int) -> u64 {
    if i == 0 {
        100
    } else if i == 1 {
        500
    } else if i == 2 {
        1_000
    } else if i == 3 {
        5_000
    } else if i == 4 {
        10_000
    } else if i == 5 {
        50_000
    } else if i == 6 {
        100_000
    } else if i == 7 {
        500_000
    } else {
        u64::MAX
    }
}

/// The bucket that a duration falls into: the first that ends beyond it, or the last.
pub open spec fn bucket_of(us: u64, from: int) -> int
    decreases NUM_BUCKETS - from,
{
    if from >= NUM_BUCKETS - 1 || us < bucket_end(from) {
        from
    } else {
        bucket_of(us, from + 1)
    }
}

/// The upper ends of the buckets, in microseconds.
pub fn buckets_us() -> (b: [u64; 9])
    ensures
        forall|i: int| 0 <= i < NUM_BUCKETS ==> #[trigger] b@[i] == bucket_end(i),
{
    [100, 500, 1_000, 5_000, 10_000, 50_000, 100_000, 500_000, u64::MAX]
}

/// How often durations fell into each bucket.
pub struct Histogram {
    pub buckets: Vec<u64>,
    pub sum_us: u64,
    pub count: u64,
    pub max_us: u64,
}

/// What a histogram holds.
#[verifier::ext_equal]
pub struct HistogramState {
    pub buckets: Seq<u64>,
    pub sum_us: u64,
    pub count: u64,
    pub max_us: u64,
}

/// One more, wrapping.
pub open spec fn bumped(n: u64) -> u64 {
    if n == u64::MAX {
        0
    } else {
        (n + 1) as u64
    }
}

impl HistogramState {
    /// An empty histogram.
    pub open spec fn empty() -> Self {
        HistogramState {
            buckets: Seq::new(NUM_BUCKETS as nat, |i: int| 0u64),
            sum_us: 0,
            count: 0,
            max_us: 0,
        }
    }

    /// The histogram with one more duration.
    pub open spec fn recorded(self, us: u64) -> Self {
        let i = bucket_of(us, 0);
        HistogramState {
            buckets: self.buckets.update(i, bumped(self.buckets[i])),
            sum_us: if self.sum_us + us > u64::MAX {
                (self.sum_us + us - u64::MAX - 1) as u64
            } else {
                (self.sum_us + us) as u64
            },
            count: bumped(self.count),
            max_us: if us > self.max_us {
                us
            } else {
                self.max_us
            },
        }
    }
}

impl View for Histogram {
    type V = HistogramState;

    open spec fn view(&self) -> HistogramState {
        HistogramState {
            buckets: self.buckets@,
            sum_us: self.sum_us,
            count: self.count,
            max_us: self.max_us,
        }
    }
}

impl Histogram {
    /// There is a count for each bucket.
    pub open spec fn wf(&self) -> bool {
        self.buckets@.len() == NUM_BUCKETS
    }

    /// An empty histogram.
    pub fn new() -> (h: Self)
        ensures
            h.wf(),
            h@ == HistogramState::empty(),
    {
        let mut buckets: Vec<u64> = Vec::new();
        let mut i: usize = 0;
        while i < NUM_BUCKETS
            invariant
                i <= NUM_BUCKETS,
                buckets@.len() == i,
                forall|j: int| 0 <= j < i ==> buckets@[j] == 0,
            decreases NUM_BUCKETS - i,
        {
            buckets.push(0);
            i = i + 1;
        }
        let h = Histogram { buckets, sum_us: 0, count: 0, max_us: 0 };
        assert(h@ =~= HistogramState::empty());
        h
    }

    /// Counts a duration of `us` microseconds.
    pub fn record_us(&mut self, us: u64)
        requires
            old(self).wf(),
        ensures
            final(self).wf(),
            final(self)@ == old(self)@.recorded(us),
    {
        let ends = buckets_us();
        let mut idx: usize = 0;
        while idx < NUM_BUCKETS - 1 && us >= ends[idx]
            invariant
                idx <= NUM_BUCKETS - 1,
                forall|i: int| 0 <= i < NUM_BUCKETS ==> #[trigger] ends@[i] == bucket_end(i),
                bucket_of(us, 0) == bucket_of(us, idx as int),
            decreases NUM_BUCKETS - idx,
        {
            assert(ends@[idx as int] == bucket_end(idx as int));
            idx = idx + 1;
        }
        proof {
            if idx < NUM_BUCKETS - 1 {
                assert(ends@[idx as int] == bucket_end(idx as int));
            }
            assert(bucket_of(us, 0) == idx);
        }
        let n: u64 = self.buckets[idx];
        self.buckets.set(idx, n.wrapping_add(1));
        self.sum_us = self.sum_us.wrapping_add(us);
        self.count = self.count.wrapping_add(1);
        if us > self.max_us {
            self.max_us = us;
        }
    }

    /// The mean duration, in microseconds, if there was any.
    pub fn mean_us(&self) -> (m: Option<u64>)
        ensures
            m == (if self.count == 0 {
                None
            } else {
                Some((self.sum_us / self.count) as u64)
            }),
    {
        if self.count == 0 {
            None
        } else {
            Some(self.sum_us / self.count)
        }
    }
}

/// A duration lies below the end of its bucket and not below the end of the one before; only
/// what is beyond every end is in the last bucket.
pub proof fn law_bucket_holds_duration(us: u64)
    ensures
        0 <= bucket_of(us, 0) < NUM_BUCKETS,
        bucket_of(us, 0) > 0 ==> bucket_end(bucket_of(us, 0) - 1) <= us,
        bucket_of(us, 0) < NUM_BUCKETS - 1 ==> us < bucket_end(bucket_of(us, 0)),
{
    lemma_bucket_of(us, 0);
}

proof fn lemma_bucket_of(us: u64, from: int)
    requires
        0 <= from < NUM_BUCKETS,
        from > 0 ==> bucket_end(from - 1) <= us,
    ensures
        from <= bucket_of(us, from) < NUM_BUCKETS,
        bucket_of(us, from) > 0 ==> bucket_end(bucket_of(us, from) - 1) <= us,
        bucket_of(us, from) < NUM_BUCKETS - 1 ==> us < bucket_end(bucket_of(us, from)),
    decreases NUM_BUCKETS - from,
{
    if !(from >= NUM_BUCKETS - 1 || us < bucket_end(from)) {
        lemma_bucket_of(us, from + 1);
    }
}

/// How often something happened, how long the gaps between were, and when it last happened.
pub struct Series {
    pub count: u64,
    pub gaps: Histogram,
    /// Nanoseconds; zero until it has happened.
    pub last_ns: u64,
}

/// What a series holds.
#[verifier::ext_equal]
pub struct SeriesState {
    pub count: u64,
    pub gaps: HistogramState,
    pub last_ns: u64,
}

impl SeriesState {
    /// A series of nothing.
    pub open spec fn empty() -> Self {
        SeriesState { count: 0, gaps: HistogramState::empty(), last_ns: 0 }
    }

    /// The series after it happened once more, at `now`. The gap counts, in whole microseconds,
    /// unless this is the first time.
    pub open spec fn happened(self, now: u64) -> Self {
        SeriesState {
            count: bumped(self.count),
            gaps: if self.last_ns == 0 {
                self.gaps
            } else {
                self.gaps.recorded(((now - self.last_ns) / 1_000) as u64)
            },
            last_ns: now,
        }
    }
}

impl View for Series {
    type V = SeriesState;

    open spec fn view(&self) -> SeriesState {
        SeriesState { count: self.count, gaps: self.gaps@, last_ns: self.last_ns }
    }
}

impl Series {
    pub open spec fn wf(&self) -> bool {
        self.gaps.wf()
    }

    fn new() -> (s: Self)
        ensures
            s.wf(),
            s@ == SeriesState::empty(),
    {
        Series { count: 0, gaps: Histogram::new(), last_ns: 0 }
    }

    /// It happened once more, at `now`, which is not before the last time.
    fn record_interval(&mut self, now: u64)
        requires
            old(self).wf(),
            now >= old(self)@.last_ns,
        ensures
            final(self).wf(),
            final(self)@ == old(self)@.happened(now),
    {
        self.count = self.count.wrapping_add(1);
        let prev: u64 = self.last_ns;
        self.last_ns = now;
        if prev != 0 {
            self.gaps.record_us((now - prev) / 1_000);
        }
    }
}

/// What a reactor has done.
pub struct Metrics {
    pub proposes: Series,
    pub votes: Series,
    pub round_advances: Series,
    pub batch_recvs: Series,
    pub reactor_iters: u64,
}

/// What is known of a reactor.
#[verifier::ext_equal]
pub struct MetricsState {
    pub proposes: SeriesState,
    pub votes: SeriesState,
    pub round_advances: SeriesState,
    pub batch_recvs: SeriesState,
    pub reactor_iters: u64,
}

impl View for Metrics {
    type V = MetricsState;

    open spec fn view(&self) -> MetricsState {
        MetricsState {
            proposes: self.proposes@,
            votes: self.votes@,
            round_advances: self.round_advances@,
            batch_recvs: self.batch_recvs@,
            reactor_iters: self.reactor_iters,
        }
    }
}

impl Metrics {
    pub open spec fn wf(&self) -> bool {
        &&& self.proposes.wf()
        &&& self.votes.wf()
        &&& self.round_advances.wf()
        &&& self.batch_recvs.wf()
    }

    /// Nothing has happened yet.
    pub fn new() -> (m: Self)
        ensures
            m.wf(),
            m@ == (MetricsState {
                proposes: SeriesState::empty(),
                votes: SeriesState::empty(),
                round_advances: SeriesState::empty(),
                batch_recvs: SeriesState::empty(),
                reactor_iters: 0,
            }),
    {
        Metrics {
            proposes: Series::new(),
            votes: Series::new(),
            round_advances: Series::new(),
            batch_recvs: Series::new(),
            reactor_iters: 0,
        }
    }

    /// A block was proposed at `now`.
    pub fn record_propose(&mut self, now: u64)
        requires
            old(self).wf(),
            now >= old(self)@.proposes.last_ns,
        ensures
            final(self).wf(),
            final(self)@ == (MetricsState {
                proposes: old(self)@.proposes.happened(now),
                ..old(self)@
            }),
    {
        self.proposes.record_interval(now);
    }

    /// A vote was cast at `now`.
    pub fn record_vote(&mut self, now: u64)
        requires
            old(self).wf(),
            now >= old(self)@.votes.last_ns,
        ensures
            final(self).wf(),
            final(self)@ == (MetricsState { votes: old(self)@.votes.happened(now), ..old(self)@ }),
    {
        self.votes.record_interval(now);
    }

    /// A round began at `now`.
    pub fn record_round_advance(&mut self, now: u64)
        requires
            old(self).wf(),
            now >= old(self)@.round_advances.last_ns,
        ensures
            final(self).wf(),
            final(self)@ == (MetricsState {
                round_advances: old(self)@.round_advances.happened(now),
                ..old(self)@
            }),
    {
        self.round_advances.record_interval(now);
    }

    /// A batch came at `now`.
    pub fn record_batch_recv(&mut self, now: u64)
        requires
            old(self).wf(),
            now >= old(self)@.batch_recvs.last_ns,
        ensures
            final(self).wf(),
            final(self)@ == (MetricsState {
                batch_recvs: old(self)@.batch_recvs.happened(now),
                ..old(self)@
            }),
    {
        self.batch_recvs.record_interval(now);
    }

    /// The reactor took one more turn.
    pub fn record_reactor_iter(&mut self)
        ensures
            old(self).wf() ==> final(self).wf(),
            final(self)@ == (MetricsState {
                reactor_iters: bumped(old(self)@.reactor_iters),
                ..old(self)@
            }),
    {
        self.reactor_iters = self.reactor_iters.wrapping_add(1);
    }
}

/// A duration counts in the first bucket below a tenth of a millisecond, and from there in one of
/// those that end at a half, one, five, ten, fifty, a hundred and five hundred milliseconds; beyond
/// that it counts in the last.
pub proof fn law_which_bucket(us: u64)
    ensures
        bucket_of(us, 0) == 0 <==> us < 100,
        bucket_of(us, 0) == 1 <==> 100 <= us < 500,
        bucket_of(us, 0) == 2 <==> 500 <= us < 1_000,
        bucket_of(us, 0) == 3 <==> 1_000 <= us < 5_000,
        bucket_of(us, 0) == 4 <==> 5_000 <= us < 10_000,
        bucket_of(us, 0) == 5 <==> 10_000 <= us < 50_000,
        bucket_of(us, 0) == 6 <==> 50_000 <= us < 100_000,
        bucket_of(us, 0) == 7 <==> 100_000 <= us < 500_000,
        bucket_of(us, 0) == 8 <==> 500_000 <= us,
{
    reveal_with_fuel(bucket_of, 9);
}

/// One more duration adds one to its bucket and to the count, and itself to the sum, each modulo
/// two to the sixty-fourth; the largest is the largest so far.
pub proof fn law_durations_add_up(h: HistogramState, us: u64, i: int)
    requires
        h.buckets.len() == NUM_BUCKETS,
        0 <= i < NUM_BUCKETS,
    ensures
        h.recorded(us).buckets.len() == NUM_BUCKETS,
        i == bucket_of(us, 0) ==> h.recorded(us).buckets[i] as int == (h.buckets[i] + 1)
            % 0x1_0000_0000_0000_0000,
        i != bucket_of(us, 0) ==> h.recorded(us).buckets[i] == h.buckets[i],
        h.recorded(us).count as int == (h.count + 1) % 0x1_0000_0000_0000_0000,
        h.recorded(us).sum_us as int == (h.sum_us + us) % 0x1_0000_0000_0000_0000,
        h.recorded(us).max_us >= h.max_us,
        h.recorded(us).max_us >= us,
        h.recorded(us).max_us == h.max_us || h.recorded(us).max_us == us,
{
    law_bucket_holds_duration(us);
}

/// Each time something happens it counts once, and from the second time on the gap since the last
/// time counts, in whole microseconds.
pub proof fn law_gaps_are_recorded(s: SeriesState, now: u64)
    requires
        now >= s.last_ns,
    ensures
        s.happened(now).count as int == (s.count + 1) % 0x1_0000_0000_0000_0000,
        s.happened(now).last_ns == now,
        s.last_ns == 0 ==> s.happened(now).gaps == s.gaps,
        s.last_ns != 0 ==> forall|us: u64|
            us * 1_000 <= now - s.last_ns < (us + 1) * 1_000 ==> s.happened(now).gaps
                == #[trigger] s.gaps.recorded(us),
{
}

} // verus!
