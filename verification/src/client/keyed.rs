//! Clients of the keyed mempool. They send bursts of transactions, numbered one after another,
//! and hear of each that has committed.

use crate::digest::{Digest, DigestMap};
use crate::hash::{do_hash, hash_of};
use crate::mempool::tx::{ClientId, Nonce};
use crate::stats::Latencies;
use vstd::prelude::*;

verus! {

/// The size of a burst and the milliseconds between bursts for a client that is given a window:
/// the window is the burst, and holds at least one transaction.
pub fn burst_of_window(window: usize) -> (r: (usize, u64))
    ensures
        r.0 == (if window == 0 {
            1
        } else {
            window
        }),
        r.1 == 100,
{
    (
        if window == 0 {
            1
        } else {
            window
        },
        100,
    )
}

/// What a client knows of its transactions. Times are in nanoseconds.
#[verifier::ext_equal]
pub struct KeyedState {
    pub client_id: ClientId,
    /// The number of the next transaction.
    pub nonce: Nonce,
    pub burst_size: usize,
    /// When each transaction that is not confirmed yet was sent.
    pub sent: Map<Digest, u128>,
    /// When each confirmed transaction was sent and confirmed.
    pub confirmed: Map<Digest, (u128, u128)>,
    /// The latencies of the window, in milliseconds.
    pub samples: Seq<u128>,
    /// How many confirmations there were.
    pub num_cmds: u128,
}

/// When each of these was sent, if all were sent now.
pub open spec fn all_sent(m: Map<Digest, u128>, wires: Seq<Vec<u8>>, now: u128) -> Map<Digest, u128>
    decreases wires.len(),
{
    if wires.len() == 0 {
        m
    } else {
        all_sent(m, wires.drop_last(), now).insert(hash_of(wires.last()@), now)
    }
}

/// A latency in whole milliseconds; zero if the clock went back.
pub open spec fn latency_ms(t0: u128, now: u128) -> u128 {
    if now < t0 {
        0
    } else {
        ((now - t0) / 1_000_000) as u128
    }
}

impl KeyedState {
    /// The client after a confirmation came. One for a transaction that is not waited for is
    /// passed over.
    pub open spec fn confirm(self, h: Digest, now: u128) -> Self {
        if self.sent.contains_key(h) {
            let t0 = self.sent[h];
            KeyedState {
                sent: self.sent.remove(h),
                confirmed: self.confirmed.insert(h, (t0, now)),
                samples: self.samples.push(latency_ms(t0, now)),
                num_cmds: (self.num_cmds + 1) as u128,
                ..self
            }
        } else {
            self
        }
    }
}

/// A client of the keyed mempool.
pub struct KeyedClient {
    client_id: ClientId,
    nonce: Nonce,
    burst_size: usize,
    time_map: DigestMap<u128>,
    latency_map: Latencies,
    window_samples: Vec<u128>,
    num_cmds: u128,
}

impl View for KeyedClient {
    type V = KeyedState;

    closed spec fn view(&self) -> KeyedState {
        KeyedState {
            client_id: self.client_id,
            nonce: self.nonce,
            burst_size: self.burst_size,
            sent: self.time_map@,
            confirmed: self.latency_map@,
            samples: self.window_samples@,
            num_cmds: self.num_cmds,
        }
    }
}

impl KeyedClient {
    /// A client that has sent nothing. Its transactions are numbered from one, since the pool
    /// takes zero for a replay; a burst holds at least one.
    pub fn new(client_id: ClientId, txs_per_burst: usize) -> (c: Self)
        ensures
            c@ == (KeyedState {
                client_id,
                nonce: 1,
                burst_size: if txs_per_burst == 0 {
                    1
                } else {
                    txs_per_burst
                },
                sent: Map::empty(),
                confirmed: Map::empty(),
                samples: Seq::empty(),
                num_cmds: 0,
            }),
    {
        KeyedClient {
            client_id,
            nonce: 1,
            burst_size: if txs_per_burst == 0 {
                1
            } else {
                txs_per_burst
            },
            time_map: DigestMap::new(),
            latency_map: DigestMap::new(),
            window_samples: Vec::new(),
            num_cmds: 0,
        }
    }

    /// The numbers of the transactions of the next burst.
    pub fn next_burst(&mut self) -> (nonces: Vec<Nonce>)
        requires
            old(self)@.nonce + old(self)@.burst_size <= u64::MAX,
        ensures
            nonces@ == Seq::new(
                old(self)@.burst_size as nat,
                |i: int| (old(self)@.nonce + i) as u64,
            ),
            final(self)@ == (KeyedState {
                nonce: (old(self)@.nonce + old(self)@.burst_size) as u64,
                ..old(self)@
            }),
    {
        let mut nonces: Vec<Nonce> = Vec::new();
        let first: Nonce = self.nonce;
        let mut i: usize = 0;
        while i < self.burst_size
            invariant
                i <= self.burst_size,
                self@ == (KeyedState { nonce: (first + i) as u64, ..old(self)@ }),
                first == old(self)@.nonce,
                self.burst_size == old(self)@.burst_size,
                first + self.burst_size <= u64::MAX,
                nonces@ == Seq::new(i as nat, |j: int| (first + j) as u64),
            decreases self.burst_size - i,
        {
            nonces.push(self.nonce);
            self.nonce = self.nonce + 1;
            i = i + 1;
            assert(nonces@ =~= Seq::new(i as nat, |j: int| (first + j) as u64));
        }
        nonces
    }

    /// Notes that these serialized transactions are sent now.
    pub fn note_sent(&mut self, wires: &Vec<Vec<u8>>, now: u128)
        ensures
            final(self)@ == (KeyedState {
                sent: all_sent(old(self)@.sent, wires@, now),
                ..old(self)@
            }),
    {
        let mut i: usize = 0;
        assert(wires@.take(0) =~= Seq::empty());
        while i < wires.len()
            invariant
                i <= wires@.len(),
                self@ == (KeyedState {
                    sent: all_sent(old(self)@.sent, wires@.take(i as int), now),
                    ..old(self)@
                }),
            decreases wires@.len() - i,
        {
            self.time_map.insert(do_hash(wires[i].as_slice()), now);
            proof {
                assert(wires@.take(i + 1).drop_last() =~= wires@.take(i as int));
                assert(wires@.take(i + 1).last() == wires@[i as int]);
            }
            i = i + 1;
        }
        assert(wires@.take(i as int) =~= wires@);
    }

    /// Hears that a transaction has committed.
    pub fn on_confirmation(&mut self, h: Digest, now: u128)
        requires
            old(self)@.num_cmds < u128::MAX,
        ensures
            final(self)@ == old(self)@.confirm(h, now),
    {
        if let Some(t0) = self.time_map.remove(h) {
            self.latency_map.insert(h, (t0, now));
            let lat_ms: u128 = if now < t0 {
                0
            } else {
                (now - t0) / 1_000_000
            };
            self.window_samples.push(lat_ms);
            self.num_cmds = self.num_cmds + 1;
        } else {
            assert(self@.sent =~= old(self)@.sent);
        }
    }

    /// Whether as many confirmations as were to be waited for have come.
    pub fn done(&self, metric: u64) -> (r: bool)
        ensures
            r == (self@.num_cmds >= metric),
    {
        self.num_cmds >= metric as u128
    }

    /// The latencies of the window; the next window begins empty.
    pub fn take_samples(&mut self) -> (s: Vec<u128>)
        ensures
            s@ == old(self)@.samples,
            final(self)@ == (KeyedState { samples: Seq::empty(), ..old(self)@ }),
    {
        let mut s: Vec<u128> = Vec::new();
        std::mem::swap(&mut s, &mut self.window_samples);
        s
    }

    /// When each confirmed transaction was sent and confirmed.
    pub fn latencies(&self) -> (m: &Latencies)
        ensures
            m@ == self@.confirmed,
    {
        &self.latency_map
    }
}

/// A transaction is confirmed once: a second confirmation changes nothing.
pub proof fn law_confirmed_once(s: KeyedState, h: Digest, now: u128, later: u128)
    requires
        s.num_cmds < u128::MAX,
    ensures
        s.confirm(h, now).confirm(h, later) == s.confirm(h, now),
        s.sent.contains_key(h) ==> s.confirm(h, now).num_cmds == s.num_cmds + 1,
{
}

/// A confirmation of a transaction that is waited for counts once, with when it was sent and now,
/// and its latency is the time between in whole milliseconds, or none if the clock went back; it is
/// then waited for no longer. Any other confirmation changes nothing.
pub proof fn law_confirmation_is_counted(s: KeyedState, h: Digest, now: u128)
    requires
        s.num_cmds < u128::MAX,
    ensures
        s.sent.contains_key(h) ==> {
            let t = s.confirm(h, now);
            &&& t.num_cmds == s.num_cmds + 1
            &&& t.confirmed == s.confirmed.insert(h, (s.sent[h], now))
            &&& t.sent == s.sent.remove(h)
            &&& t.samples.len() == s.samples.len() + 1
            &&& t.samples.drop_last() == s.samples
            &&& now >= s.sent[h] ==> t.samples.last() * 1_000_000 <= now - s.sent[h] < (
            t.samples.last() + 1) * 1_000_000
            &&& now < s.sent[h] ==> t.samples.last() == 0
            &&& t.nonce == s.nonce
            &&& t.client_id == s.client_id
            &&& t.burst_size == s.burst_size
        },
        !s.sent.contains_key(h) ==> s.confirm(h, now) == s,
{
    if s.sent.contains_key(h) {
        let t = s.confirm(h, now);
        assert(t.samples.drop_last() =~= s.samples);
    }
}

/// Transactions that are sent together are each waited for, from now on, by the hash of their
/// bytes; whatever else was waited for still is.
pub proof fn law_sent_is_waited_for(
    m: Map<Digest, u128>,
    wires: Seq<Vec<u8>>,
    now: u128,
    d: Digest,
)
    ensures
        (exists|i: int| 0 <= i < wires.len() && hash_of((#[trigger] wires[i])@) == d) ==> all_sent(
            m,
            wires,
            now,
        ).contains_key(d) && all_sent(m, wires, now)[d] == now,
        !(exists|i: int| 0 <= i < wires.len() && hash_of((#[trigger] wires[i])@) == d) ==> all_sent(
            m,
            wires,
            now,
        ).contains_key(d) == m.contains_key(d) && all_sent(m, wires, now)[d] == m[d],
    decreases wires.len(),
{
    if wires.len() > 0 {
        let a = wires.drop_last();
        law_sent_is_waited_for(m, a, now, d);
        assert(wires[wires.len() - 1] == wires.last());
        if exists|i: int| 0 <= i < wires.len() && hash_of((#[trigger] wires[i])@) == d {
            let i = choose|i: int| 0 <= i < wires.len() && hash_of((#[trigger] wires[i])@) == d;
            if i < a.len() {
                assert(hash_of(a[i]@) == d);
            }
        }
        if exists|i: int| 0 <= i < a.len() && hash_of((#[trigger] a[i])@) == d {
            let i = choose|i: int| 0 <= i < a.len() && hash_of((#[trigger] a[i])@) == d;
            assert(hash_of(wires[i]@) == d);
        }
    }
}

} // verus!
