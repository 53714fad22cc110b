//! 256-bit content digests, and the maps that they key.

use crate::split_map::{SplitKey, SplitMap};
use vstd::prelude::*;

verus! {

/// How many bytes a digest has.
pub const DIGEST_LEN: usize = 32;

/// The number that a big-endian byte string denotes.
pub open spec fn be_value(s: Seq<u8>) -> nat
    decreases s.len(),
{
    if s.len() == 0 {
        0
    } else {
        256 * be_value(s.drop_last()) + s.last() as nat
    }
}

/// The `n` low bytes of `v`, most significant first.
pub open spec fn be_bytes(v: nat, n: nat) -> Seq<u8>
    decreases n,
{
    if n == 0 {
        Seq::empty()
    } else {
        be_bytes(v / 256, (n - 1) as nat).push((v % 256) as u8)
    }
}

/// `be_bytes` has the length asked for.
pub proof fn lemma_be_bytes_len(v: nat, n: nat)
    ensures
        be_bytes(v, n).len() == n,
    decreases n,
{
    if n > 0 {
        lemma_be_bytes_len(v / 256, (n - 1) as nat);
    }
}

/// A byte string of a given length is the big-endian form of its value.
pub proof fn lemma_be_bytes_of_value(s: Seq<u8>)
    ensures
        be_bytes(be_value(s), s.len()) == s,
    decreases s.len(),
{
    if s.len() > 0 {
        let d = s.drop_last();
        let v = be_value(s);
        lemma_be_bytes_of_value(d);
        assert(v / 256 == be_value(d) && v % 256 == s.last() as nat) by {
            vstd::arithmetic::div_mod::lemma_fundamental_div_mod_converse(
                v as int,
                256,
                be_value(d) as int,
                s.last() as int,
            );
        }
        assert(d.push(s.last()) =~= s);
    } else {
        assert(be_bytes(be_value(s), s.len()) =~= s);
    }
}

/// What `n` bytes can hold.
pub open spec fn pow256(n: nat) -> nat
    decreases n,
{
    if n == 0 {
        1
    } else {
        256 * pow256((n - 1) as nat)
    }
}

/// A value that fits in `n` bytes is the value of its big-endian form.
pub proof fn lemma_value_of_be_bytes(v: nat, n: nat)
    requires
        v < pow256(n),
    ensures
        be_value(be_bytes(v, n)) == v,
    decreases n,
{
    if n > 0 {
        lemma_value_of_be_bytes(v / 256, (n - 1) as nat);
        let b = be_bytes(v, n);
        assert(b.drop_last() =~= be_bytes(v / 256, (n - 1) as nat));
    }
}

/// The value of `n` bytes fits in `n` bytes.
pub proof fn lemma_be_value_bound(s: Seq<u8>)
    ensures
        be_value(s) < pow256(s.len()),
    decreases s.len(),
{
    if s.len() > 0 {
        lemma_be_value_bound(s.drop_last());
    }
}

/// A 256-bit digest: the first sixteen bytes and the last sixteen, each read big-endian.
#[derive(Debug, Clone, Copy, PartialEq, Eq, Structural)]
pub struct Digest {
    pub hi: u128,
    pub lo: u128,
}

proof fn lemma_pow256_16()
    ensures
        pow256(16) == 0x1_0000_0000_0000_0000_0000_0000_0000_0000nat,
{
    reveal_with_fuel(pow256, 17);
}

/// Reads sixteen bytes, starting at `from`, as one big-endian number.
fn read_half(bytes: &[u8], from: usize) -> (v: u128)
    requires
        from + 16 <= bytes@.len(),
    ensures
        v as nat == be_value(bytes@.subrange(from as int, from + 16)),
{
    let mut v: u128 = 0;
    let mut i: usize = 0;
    let n: usize = bytes.len();
    let ghost s = bytes@.subrange(from as int, from + 16);
    assert(s.take(0) =~= Seq::empty());
    while i < 16
        invariant
            i <= 16,
            n == bytes@.len(),
            from + 16 <= n,
            s == bytes@.subrange(from as int, from + 16),
            v as nat == be_value(s.take(i as int)),
        decreases 16 - i,
    {
        proof {
            lemma_pow256_16();
            assert(s.take(i + 1).drop_last() =~= s.take(i as int));
            assert(s.take(i + 1).last() == bytes@[from + i]);
            lemma_be_value_bound(s.take(i + 1));
            lemma_pow256_monotone((i + 1) as nat, 16);
        }
        v = v * 256 + bytes[from + i] as u128;
        i = i + 1;
    }
    assert(s.take(16) =~= s);
    v
}

proof fn lemma_pow256_monotone(a: nat, b: nat)
    requires
        a <= b,
    ensures
        pow256(a) <= pow256(b),
        1 <= pow256(a),
    decreases b,
{
    if a < b {
        lemma_pow256_monotone(a, (b - 1) as nat);
    } else if a > 0 {
        lemma_pow256_monotone((a - 1) as nat, (a - 1) as nat);
    }
}

/// Appends the sixteen big-endian bytes of `v`.
fn push_half(out: &mut Vec<u8>, v: u128)
    ensures
        final(out)@ == old(out)@ + be_bytes(v as nat, 16),
{
    let mut i: usize = 16;
    let mut rest: u128 = v;
    let mut low: Vec<u8> = Vec::new();
    assert(be_bytes(v as nat, 16) =~= be_bytes(rest as nat, 16) + low@.reverse());
    while i > 0
        invariant
            i <= 16,
            be_bytes(v as nat, 16) == be_bytes(rest as nat, i as nat) + low@.reverse(),
        decreases i,
    {
        let ghost before = low@;
        let b: u8 = (rest % 256) as u8;
        low.push(b);
        proof {
            assert(low@.reverse() =~= seq![b] + before.reverse());
            assert(be_bytes(rest as nat, i as nat) =~= be_bytes(
                (rest / 256) as nat,
                (i - 1) as nat,
            ) + seq![b]);
            assert(be_bytes(v as nat, 16) =~= be_bytes((rest / 256) as nat, (i - 1) as nat)
                + low@.reverse());
        }
        rest = rest / 256;
        i = i - 1;
    }
    assert(be_bytes(v as nat, 16) =~= low@.reverse());
    let mut k: usize = low.len();
    let ghost start = out@;
    assert(low@.skip(k as int).reverse() =~= Seq::empty());
    assert(out@ =~= start + low@.skip(k as int).reverse());
    while k > 0
        invariant
            k <= low@.len(),
            out@ == start + low@.skip(k as int).reverse(),
        decreases k,
    {
        k = k - 1;
        let b: u8 = low[k];
        let ghost before = out@;
        out.push(b);
        proof {
            assert(low@.skip(k as int) =~= seq![b] + low@.skip(k + 1));
            assert(low@.skip(k as int).reverse() =~= low@.skip(k + 1).reverse().push(b));
            assert(out@ =~= start + low@.skip(k as int).reverse());
        }
    }
    assert(low@.skip(0) =~= low@);
}

/// The digest that thirty-two bytes denote.
pub open spec fn digest_of_bytes(s: Seq<u8>) -> Digest {
    Digest { hi: be_value(s.take(16)) as u128, lo: be_value(s.skip(16)) as u128 }
}

/// The low bytes of a number are those of its remainder.
proof fn lemma_low_bytes(v: nat, n: nat, k: nat)
    requires
        k <= n,
    ensures
        be_bytes(v, n).skip(n - k) == be_bytes(v, k),
        be_value(be_bytes(v, k)) == v % pow256(k),
    decreases n,
{
    lemma_be_bytes_len(v, n);
    if k == 0 {
        assert(be_bytes(v, n).skip(n - k) =~= be_bytes(v, k));
    } else {
        lemma_be_bytes_len(v / 256, (n - 1) as nat);
        lemma_low_bytes(v / 256, (n - 1) as nat, (k - 1) as nat);
        let b = (v % 256) as u8;
        assert(be_bytes(v, n).skip(n - k) =~= be_bytes(v / 256, (n - 1) as nat).skip(n - k).push(b));
        assert(be_bytes(v, k).drop_last() =~= be_bytes(v / 256, (k - 1) as nat));
        lemma_pow256_monotone((k - 1) as nat, (k - 1) as nat);
        vstd::arithmetic::div_mod::lemma_mod_breakdown(
            v as int,
            256,
            pow256((k - 1) as nat) as int,
        );
    }
}

impl Digest {
    /// The digest as thirty-two bytes.
    pub open spec fn bytes(self) -> Seq<u8> {
        be_bytes(self.hi as nat, 16) + be_bytes(self.lo as nat, 16)
    }

    /// Reads a digest; anything but thirty-two bytes is refused.
    pub fn from_slice(bytes: &[u8]) -> (r: Option<Digest>)
        ensures
            r is Some <==> bytes@.len() == DIGEST_LEN,
            r matches Some(d) ==> d == digest_of_bytes(bytes@) && d.bytes() == bytes@,
    {
        if bytes.len() != DIGEST_LEN {
            return None;
        }
        let d = Digest { hi: read_half(bytes, 0), lo: read_half(bytes, 16) };
        proof {
            assert(bytes@.take(16) =~= bytes@.subrange(0, 16));
            assert(bytes@.skip(16) =~= bytes@.subrange(16, 32));
            lemma_be_bytes_of_value(bytes@.subrange(0, 16));
            lemma_be_bytes_of_value(bytes@.subrange(16, 32));
            assert(d.bytes() =~= bytes@);
        }
        Some(d)
    }

    /// The thirty-two bytes of the digest, as a storage key takes them.
    pub fn to_vec(&self) -> (v: Vec<u8>)
        ensures
            v@ == self.bytes(),
    {
        let mut v: Vec<u8> = Vec::new();
        push_half(&mut v, self.hi);
        push_half(&mut v, self.lo);
        assert(v@ =~= self.bytes());
        v
    }

    /// The last eight bytes, read big-endian.
    pub fn low_u64(&self) -> (v: u64)
        ensures
            v as nat == be_value(self.bytes().skip(24)),
    {
        proof {
            lemma_be_bytes_len(self.hi as nat, 16);
            lemma_be_bytes_len(self.lo as nat, 16);
            lemma_low_bytes(self.lo as nat, 16, 8);
            assert(self.bytes().skip(24) =~= be_bytes(self.lo as nat, 16).skip(8));
            assert(pow256(8) == 0x1_0000_0000_0000_0000nat) by {
                reveal_with_fuel(pow256, 9);
            }
        }
        (self.lo % 0x1_0000_0000_0000_0000) as u64
    }
}

/// Two digests with the same bytes are the same digest.
pub proof fn law_digest_has_own_bytes(a: Digest, b: Digest)
    requires
        a.bytes() == b.bytes(),
    ensures
        a == b,
{
    lemma_pow256_16();
    lemma_be_bytes_len(a.hi as nat, 16);
    lemma_be_bytes_len(b.hi as nat, 16);
    lemma_be_bytes_len(a.lo as nat, 16);
    lemma_be_bytes_len(b.lo as nat, 16);
    assert(a.bytes().take(16) =~= be_bytes(a.hi as nat, 16));
    assert(b.bytes().take(16) =~= be_bytes(b.hi as nat, 16));
    assert(a.bytes().skip(16) =~= be_bytes(a.lo as nat, 16));
    assert(b.bytes().skip(16) =~= be_bytes(b.lo as nat, 16));
    lemma_value_of_be_bytes(a.hi as nat, 16);
    lemma_value_of_be_bytes(b.hi as nat, 16);
    lemma_value_of_be_bytes(a.lo as nat, 16);
    lemma_value_of_be_bytes(b.lo as nat, 16);
}

impl SplitKey for Digest {
    type Hi = u128;

    type Lo = u128;

    open spec fn hi(self) -> u128 {
        self.hi
    }

    open spec fn lo(self) -> u128 {
        self.lo
    }

    open spec fn joined(hi: u128, lo: u128) -> Digest {
        Digest { hi, lo }
    }

    proof fn lemma_split(self) {
    }

    proof fn lemma_join(hi: u128, lo: u128) {
    }

    fn split(&self) -> (u128, u128) {
        (self.hi, self.lo)
    }

    fn join(hi: u128, lo: u128) -> Digest {
        Digest { hi, lo }
    }
}

/// A finite map from digests to values.
pub type DigestMap<V> = SplitMap<Digest, V>;

/// The most significant byte comes first: a byte in front counts for as much as all that can follow
/// it together and one more, and each byte of a number is a digit of it.
pub proof fn law_most_significant_first(b: u8, s: Seq<u8>, v: nat, n: nat)
    ensures
        be_value(seq![b] + s) == b * pow256(s.len()) + be_value(s),
        be_value(s.push(b)) == 256 * be_value(s) + b,
        n > 0 ==> be_bytes(v, n) == be_bytes(v / 256, (n - 1) as nat).push((v % 256) as u8),
        be_bytes(v, n).len() == n,
    decreases s.len(),
{
    lemma_be_bytes_len(v, n);
    assert(s.push(b).drop_last() =~= s);
    let all = seq![b] + s;
    if s.len() == 0 {
        assert(all.drop_last() =~= Seq::empty());
        assert(all.last() == b);
        reveal_with_fuel(be_value, 2);
        assert(pow256(0) == 1);
    } else {
        let a = s.drop_last();
        law_most_significant_first(b, a, v, n);
        assert(all.drop_last() =~= seq![b] + a);
        assert(all.last() == s.last());
        let p = pow256(a.len());
        assert(256 * (b * p) == b * (256 * p)) by (nonlinear_arith);
    }
}

/// A digest that is read from its bytes is the same digest, and has those bytes.
pub proof fn law_bytes_read_back(d: Digest, s: Seq<u8>)
    requires
        s.len() == DIGEST_LEN,
    ensures
        digest_of_bytes(d.bytes()) == d,
        digest_of_bytes(s).bytes() == s,
        d.bytes().len() == 32,
{
    lemma_pow256_16();
    lemma_be_bytes_len(d.hi as nat, 16);
    lemma_be_bytes_len(d.lo as nat, 16);
    assert(d.bytes().take(16) =~= be_bytes(d.hi as nat, 16));
    assert(d.bytes().skip(16) =~= be_bytes(d.lo as nat, 16));
    lemma_value_of_be_bytes(d.hi as nat, 16);
    lemma_value_of_be_bytes(d.lo as nat, 16);
    lemma_be_bytes_of_value(s.take(16));
    lemma_be_bytes_of_value(s.skip(16));
    lemma_be_value_bound(s.take(16));
    lemma_be_value_bound(s.skip(16));
    assert(digest_of_bytes(s).bytes() =~= s);
}

} // verus!
