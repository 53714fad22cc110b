//! The index of the blocks that were delivered and committed.

use crate::chain::block::{ChainBlock, Height};
use crate::digest::{Digest, DigestMap};
use crate::fnv_map::FnvMap;
use std::sync::Arc;
use vstd::prelude::*;

verus! {

/// What an index holds.
#[verifier::ext_equal]
pub struct StorageState<B> {
    /// The delivered blocks, by hash.
    pub delivered: Map<Digest, Arc<B>>,
    /// The block that was last delivered at each height.
    pub by_height: Map<Height, Arc<B>>,
    /// The committed blocks, by hash.
    pub committed: Map<Digest, Arc<B>>,
}

/// The hash of the block that is `k` generations above the one with hash `h`: `h` itself, its
/// parent, the parent of that one, and so on.
pub open spec fn ancestor<B: ChainBlock>(blocks: Map<Digest, Arc<B>>, h: Digest, k: nat) -> Digest
    decreases k,
{
    if k == 0 {
        h
    } else {
        blocks[ancestor(blocks, h, (k - 1) as nat)].spec_header().prev
    }
}

/// Whether exactly `n` blocks are to commit with `h`: `h` and its first ancestors, all of them
/// delivered and none of them committed, up to one whose parent has committed or is among them.
pub open spec fn are_uncommitted<B: ChainBlock>(
    delivered: Map<Digest, Arc<B>>,
    committed: Set<Digest>,
    h: Digest,
    n: nat,
) -> bool {
    &&& forall|k: nat|
        k < n ==> delivered.contains_key(#[trigger] ancestor(delivered, h, k))
            && !committed.contains(ancestor(delivered, h, k))
    &&& forall|i: nat, j: nat|
        i < j < n ==> #[trigger] ancestor(delivered, h, i) != #[trigger] ancestor(delivered, h, j)
    &&& committed.contains(ancestor(delivered, h, n)) || exists|k: nat|
        k < n && #[trigger] ancestor(delivered, h, k) == ancestor(delivered, h, n)
}

/// The blocks that commit when `h` does: `h` and its ancestors, up to the first that has
/// committed. There is no answer when an ancestor is missing.
pub open spec fn uncommitted_chain<B: ChainBlock>(
    delivered: Map<Digest, Arc<B>>,
    committed: Set<Digest>,
    h: Digest,
) -> Option<Seq<Arc<B>>>
    decreases delivered.dom().difference(committed).len(),
{
    if committed.contains(h) {
        Some(Seq::empty())
    } else if delivered.contains_key(h) && delivered.dom().finite() {
        proof {
            let d = delivered.dom();
            assert(d.difference(committed.insert(h)) =~= d.difference(committed).remove(h));
        }
        match uncommitted_chain(
            delivered,
            committed.insert(h),
            delivered[h].spec_header().prev,
        ) {
            Some(rest) => Some(seq![delivered[h]] + rest),
            None => None,
        }
    } else {
        None
    }
}

/// The committed blocks after these have committed too.
pub open spec fn with_committed<B: ChainBlock>(
    committed: Map<Digest, Arc<B>>,
    chain: Seq<Arc<B>>,
) -> Map<Digest, Arc<B>>
    decreases chain.len(),
{
    if chain.len() == 0 {
        committed
    } else {
        with_committed(committed, chain.drop_last()).insert(chain.last().spec_hash(), chain.last())
    }
}

impl<B: ChainBlock> StorageState<B> {
    /// Every delivered block is filed under its own hash.
    pub open spec fn inv(self) -> bool {
        &&& self.delivered.dom().finite()
        &&& forall|h: Digest| #[trigger]
            self.delivered.contains_key(h) ==> self.delivered[h].spec_hash() == h
    }

    /// The index after a block was delivered.
    pub open spec fn deliver(self, b: Arc<B>) -> Self {
        StorageState {
            delivered: self.delivered.insert(b.spec_hash(), b),
            by_height: self.by_height.insert(b.spec_header().height, b),
            ..self
        }
    }

    /// The index after a block was committed.
    pub open spec fn commit(self, b: Arc<B>) -> Self {
        StorageState { committed: self.committed.insert(b.spec_hash(), b), ..self }
    }

    /// The blocks that commit when `h` does, the last one first.
    pub open spec fn commits(self, h: Digest) -> Option<Seq<Arc<B>>> {
        uncommitted_chain(self.delivered, self.committed.dom(), h)
    }

    /// The index after a whole chain of blocks has committed.
    pub open spec fn commit_all(self, chain: Seq<Arc<B>>) -> Self {
        StorageState { committed: with_committed(self.committed, chain), ..self }
    }

    /// Whether the parent of every committed block has committed, but for the first block of
    /// all.
    pub open spec fn closed_below(self, genesis: Digest) -> bool {
        forall|h: Digest| #[trigger]
            self.committed.contains_key(h) && h != genesis ==> self.committed.contains_key(
                self.committed[h].spec_header().prev,
            )
    }
}

/// The index of a chain.
#[verifier::reject_recursive_types(B)]
pub struct Storage<B> {
    delivered: DigestMap<Arc<B>>,
    by_height: FnvMap<Height, Arc<B>>,
    committed: DigestMap<Arc<B>>,
}

impl<B: ChainBlock> View for Storage<B> {
    type V = StorageState<B>;

    closed spec fn view(&self) -> StorageState<B> {
        StorageState {
            delivered: self.delivered@,
            by_height: self.by_height@,
            committed: self.committed@,
        }
    }
}

impl<B: ChainBlock> Storage<B> {
    /// An index where nothing is but the first block, delivered and committed.
    pub fn new(genesis: Arc<B>) -> (s: Self)
        ensures
            s@.inv(),
            s@ == (StorageState {
                delivered: Map::empty(),
                by_height: Map::empty(),
                committed: Map::empty(),
            }).deliver(genesis).commit(genesis),
    {
        let mut s = Storage {
            delivered: DigestMap::new(),
            by_height: FnvMap::new(),
            committed: DigestMap::new(),
        };
        s.add_delivered_block(Arc::clone(&genesis));
        s.add_committed_block(genesis);
        s
    }

    /// Files a delivered block, by its hash and by its height.
    pub fn add_delivered_block(&mut self, b: Arc<B>)
        ensures
            final(self)@ == old(self)@.deliver(b),
            old(self)@.inv() ==> final(self)@.inv(),
    {
        self.delivered.insert(b.get_hash(), Arc::clone(&b));
        self.by_height.insert(b.get_header().height, b);
    }

    /// Files a committed block.
    pub fn add_committed_block(&mut self, b: Arc<B>)
        ensures
            final(self)@ == old(self)@.commit(b),
            old(self)@.inv() ==> final(self)@.inv(),
    {
        self.committed.insert(b.get_hash(), b);
    }

    pub fn is_delivered_by_hash(&self, h: &Digest) -> (r: bool)
        ensures
            r == self@.delivered.contains_key(*h),
    {
        self.delivered.contains_key(*h)
    }

    pub fn is_committed_by_hash(&self, h: &Digest) -> (r: bool)
        ensures
            r == self@.committed.contains_key(*h),
    {
        self.committed.contains_key(*h)
    }

    pub fn delivered_block_from_hash(&self, h: &Digest) -> (r: Option<Arc<B>>)
        ensures
            r == (if self@.delivered.contains_key(*h) { Some(self@.delivered[*h]) } else { None }),
    {
        match self.delivered.get(*h) {
            Some(b) => Some(Arc::clone(b)),
            None => None,
        }
    }

    pub fn delivered_block_from_ht(&self, height: Height) -> (r: Option<Arc<B>>)
        ensures
            r == (if self@.by_height.contains_key(height) {
                Some(self@.by_height[height])
            } else {
                None
            }),
    {
        match self.by_height.get(height) {
            Some(b) => Some(Arc::clone(b)),
            None => None,
        }
    }

    /// Commits the block with hash `h` and its ancestors, up to the first that has committed,
    /// and hands them back, the last one first. When an ancestor is missing nothing happens,
    /// and its hash is handed back instead.
    pub fn commit_chain(&mut self, h: Digest) -> (r: Result<Vec<Arc<B>>, Digest>)
        requires
            old(self)@.inv(),
        ensures
            final(self)@.inv(),
            match r {
                Ok(chain) => old(self)@.commits(h) == Some(chain@) && final(self)@ == old(
                    self,
                )@.commit_all(chain@),
                Err(missing) => old(self)@.commits(h) is None && final(self)@ == old(self)@
                    && !old(self)@.delivered.contains_key(missing)
                    && !old(self)@.committed.contains_key(missing),
            },
    {
        let ghost s0 = self@;
        let mut chain: Vec<Arc<B>> = Vec::new();
        let mut fresh: DigestMap<()> = DigestMap::new();
        let mut cur: Digest = h;
        proof {
            assert(s0.committed.dom().union(fresh@.dom()) =~= s0.committed.dom());
            assert(s0.commits(h) == prepend(chain@, s0.commits(h))) by {
                if s0.commits(h) is Some {
                    assert(chain@ + s0.commits(h)->0 =~= s0.commits(h)->0);
                }
            }
        }
        while !self.committed.contains_key(cur) && !fresh.contains_key(cur)
            invariant
                self@ == s0,
                s0.inv(),
                s0.commits(h) == prepend(
                    chain@,
                    uncommitted_chain(
                        s0.delivered,
                        s0.committed.dom().union(fresh@.dom()),
                        cur,
                    ),
                ),
            decreases s0.delivered.dom().difference(s0.committed.dom().union(fresh@.dom())).len(),
        {
            let b = match self.delivered.get(cur) {
                Some(b) => Arc::clone(b),
                None => {
                    return Err(cur);
                },
            };
            proof {
                let done = s0.committed.dom().union(fresh@.dom());
                let next = uncommitted_chain(s0.delivered, done.insert(cur), b.spec_header().prev);
                let d = s0.delivered.dom();
                assert(d.difference(done.insert(cur)) =~= d.difference(done).remove(cur));
                assert(d.difference(done).contains(cur));
                assert(s0.committed.dom().union(fresh@.insert(cur, ()).dom()) =~= done.insert(cur));
                if next is Some {
                    assert(chain@ + (seq![b] + next->0) =~= chain@.push(b) + next->0);
                }
            }
            fresh.insert(cur, ());
            cur = b.get_header().prev;
            chain.push(b);
        }
        proof {
            assert(chain@ + Seq::<Arc<B>>::empty() =~= chain@);
        }
        let mut i: usize = 0;
        while i < chain.len()
            invariant
                i <= chain@.len(),
                s0.inv(),
                self@ == s0.commit_all(chain@.take(i as int)),
            decreases chain@.len() - i,
        {
            self.add_committed_block(Arc::clone(&chain[i]));
            proof {
                assert(chain@.take(i + 1).drop_last() =~= chain@.take(i as int));
                assert(self@ =~= s0.commit_all(chain@.take(i + 1)));
            }
            i = i + 1;
        }
        assert(chain@.take(i as int) =~= chain@);
        Ok(chain)
    }
}

/// A chain that begins with what was walked already.
spec fn prepend<B>(walked: Seq<Arc<B>>, rest: Option<Seq<Arc<B>>>) -> Option<Seq<Arc<B>>> {
    match rest {
        Some(rest) => Some(walked + rest),
        None => None,
    }
}

/// What commits together is one chain of delivered blocks: it begins with the block that was
/// asked for, each next one is the parent of the one before, none had committed, and the parent
/// of the last one had, or is among them.
pub proof fn law_commit_is_a_chain<B: ChainBlock>(
    delivered: Map<Digest, Arc<B>>,
    committed: Set<Digest>,
    h: Digest,
)
    requires
        delivered.dom().finite(),
        forall|k: Digest| #[trigger] delivered.contains_key(k) ==> delivered[k].spec_hash() == k,
        uncommitted_chain(delivered, committed, h) is Some,
    ensures
        ({
            let chain = uncommitted_chain(delivered, committed, h)->0;
            &&& chain.len() == 0 <==> committed.contains(h)
            &&& chain.len() > 0 ==> chain[0].spec_hash() == h
            &&& forall|i: int|
                0 <= i < chain.len() ==> delivered.contains_key(
                    (#[trigger] chain[i]).spec_hash(),
                ) && delivered[chain[i].spec_hash()] == chain[i] && !committed.contains(
                    chain[i].spec_hash(),
                )
            &&& forall|i: int|
                0 <= i < chain.len() - 1 ==> chain[i + 1].spec_hash() == (
                #[trigger] chain[i]).spec_header().prev
            &&& forall|i: int, j: int|
                0 <= i < j < chain.len() ==> (#[trigger] chain[i]).spec_hash() != (
                #[trigger] chain[j]).spec_hash()
            &&& chain.len() > 0 ==> (committed.contains(chain.last().spec_header().prev) || exists|
                i: int,
            |
                0 <= i < chain.len() && (#[trigger] chain[i]).spec_hash()
                    == chain.last().spec_header().prev)
        }),
    decreases delivered.dom().difference(committed).len(),
{
    if !committed.contains(h) {
        let d = delivered.dom();
        assert(d.difference(committed.insert(h)) =~= d.difference(committed).remove(h));
        assert(d.difference(committed).contains(h));
        let p = delivered[h].spec_header().prev;
        law_commit_is_a_chain(delivered, committed.insert(h), p);
        let rest = uncommitted_chain(delivered, committed.insert(h), p)->0;
        let chain = uncommitted_chain(delivered, committed, h)->0;
        assert(chain =~= seq![delivered[h]] + rest);
        assert(chain[0] == delivered[h]);
        assert forall|i: int| 0 <= i < chain.len() implies delivered.contains_key(
            (#[trigger] chain[i]).spec_hash(),
        ) && delivered[chain[i].spec_hash()] == chain[i] && !committed.contains(
            chain[i].spec_hash(),
        ) by {
            if i > 0 {
                assert(chain[i] == rest[i - 1]);
            }
        }
        assert forall|i: int| 0 <= i < chain.len() - 1 implies chain[i + 1].spec_hash() == (
        #[trigger] chain[i]).spec_header().prev by {
            assert(chain[i + 1] == rest[i]);
            if i > 0 {
                assert(chain[i] == rest[i - 1]);
            }
        }
        assert forall|i: int, j: int| 0 <= i < j < chain.len() implies (
        #[trigger] chain[i]).spec_hash() != (#[trigger] chain[j]).spec_hash() by {
            assert(chain[j] == rest[j - 1]);
            if i > 0 {
                assert(chain[i] == rest[i - 1]);
            }
        }
        if rest.len() > 0 {
            assert(chain.last() == rest.last());
            let q = rest.last().spec_header().prev;
            if !committed.insert(h).contains(q) {
                let i = choose|i: int| 0 <= i < rest.len() && (#[trigger] rest[i]).spec_hash() == q;
                assert(chain[i + 1].spec_hash() == q);
            } else if !committed.contains(q) {
                assert(chain[0].spec_hash() == q);
            }
        } else {
            assert(chain.last() == chain[0]);
            if !committed.contains(p) {
                assert(chain[0].spec_hash() == p);
            }
        }
    }
}

/// What has committed after a chain committed: what had before, and the blocks of the chain.
pub proof fn lemma_with_committed<B: ChainBlock>(
    committed: Map<Digest, Arc<B>>,
    chain: Seq<Arc<B>>,
)
    ensures
        forall|h: Digest| #[trigger]
            with_committed(committed, chain).contains_key(h) <==> committed.contains_key(h)
                || exists|i: int| 0 <= i < chain.len() && (#[trigger] chain[i]).spec_hash() == h,
        forall|h: Digest|
            committed.contains_key(h) && (forall|i: int|
                0 <= i < chain.len() ==> (#[trigger] chain[i]).spec_hash() != h)
                ==> #[trigger] with_committed(committed, chain)[h] == committed[h],
        (forall|i: int, j: int|
            0 <= i < j < chain.len() ==> (#[trigger] chain[i]).spec_hash() != (
            #[trigger] chain[j]).spec_hash()) ==> forall|i: int|
            0 <= i < chain.len() ==> with_committed(committed, chain)[(
            #[trigger] chain[i]).spec_hash()] == chain[i],
    decreases chain.len(),
{
    if chain.len() > 0 {
        let a = chain.drop_last();
        let n = chain.len() - 1;
        lemma_with_committed(committed, a);
        let m = with_committed(committed, chain);
        let ma = with_committed(committed, a);
        assert forall|h: Digest| #[trigger] m.contains_key(h) <==> committed.contains_key(h)
            || exists|i: int| 0 <= i < chain.len() && (#[trigger] chain[i]).spec_hash() == h by {
            if h == chain[n].spec_hash() {
            } else if ma.contains_key(h) && !committed.contains_key(h) {
                let i = choose|i: int| 0 <= i < a.len() && (#[trigger] a[i]).spec_hash() == h;
                assert(chain[i].spec_hash() == h);
            } else if exists|i: int| 0 <= i < chain.len() && (#[trigger] chain[i]).spec_hash() == h {
                let i = choose|i: int| 0 <= i < chain.len() && (#[trigger] chain[i]).spec_hash()
                    == h;
                assert(a[i].spec_hash() == h);
            }
        }
        assert forall|h: Digest|
            committed.contains_key(h) && (forall|i: int|
                0 <= i < chain.len() ==> (#[trigger] chain[i]).spec_hash()
                    != h) implies #[trigger] m[h] == committed[h] by {
            assert(chain[n].spec_hash() != h);
            assert forall|i: int| 0 <= i < a.len() implies (#[trigger] a[i]).spec_hash() != h by {
                assert(chain[i] == a[i]);
            }
            assert(ma[h] == committed[h]);
        }
        if forall|i: int, j: int|
            0 <= i < j < chain.len() ==> (#[trigger] chain[i]).spec_hash() != (
            #[trigger] chain[j]).spec_hash() {
            assert forall|i: int, j: int| 0 <= i < j < a.len() implies (
            #[trigger] a[i]).spec_hash() != (#[trigger] a[j]).spec_hash() by {
                assert(a[i] == chain[i] && a[j] == chain[j]);
            }
            assert forall|i: int| 0 <= i < chain.len() implies m[(
            #[trigger] chain[i]).spec_hash()] == chain[i] by {
                if i < n {
                    assert(a[i] == chain[i]);
                    assert(chain[i].spec_hash() != chain[n].spec_hash());
                }
            }
        }
    }
}

/// The ancestors of an ancestor are the further ancestors.
pub proof fn lemma_ancestors_on<B: ChainBlock>(
    blocks: Map<Digest, Arc<B>>,
    h: Digest,
    a: nat,
    b: nat,
)
    ensures
        ancestor(blocks, h, a + b) == ancestor(blocks, ancestor(blocks, h, a), b),
    decreases b,
{
    if b > 0 {
        lemma_ancestors_on(blocks, h, a, (b - 1) as nat);
    }
}

/// The ancestors of the parent are the further ancestors.
pub proof fn lemma_ancestor_of_parent<B: ChainBlock>(
    blocks: Map<Digest, Arc<B>>,
    h: Digest,
    k: nat,
)
    ensures
        ancestor(blocks, blocks[h].spec_header().prev, k) == ancestor(blocks, h, k + 1),
    decreases k,
{
    reveal_with_fuel(ancestor, 2);
    if k > 0 {
        lemma_ancestor_of_parent(blocks, h, (k - 1) as nat);
    }
}

/// Where the blocks on the way are the same, so are the ancestors.
pub proof fn lemma_same_ancestors<B: ChainBlock>(
    a: Map<Digest, Arc<B>>,
    b: Map<Digest, Arc<B>>,
    h: Digest,
    k: nat,
)
    requires
        forall|j: nat| j < k ==> b[#[trigger] ancestor(a, h, j)] == a[ancestor(a, h, j)],
    ensures
        ancestor(b, h, k) == ancestor(a, h, k),
    decreases k,
{
    if k > 0 {
        lemma_same_ancestors(a, b, h, (k - 1) as nat);
    }
}

/// What commits with a block is the block and its ancestors, as many as have not committed, the
/// block first.
pub proof fn law_ancestors_commit_together<B: ChainBlock>(
    delivered: Map<Digest, Arc<B>>,
    committed: Set<Digest>,
    h: Digest,
    n: nat,
)
    requires
        delivered.dom().finite(),
        are_uncommitted(delivered, committed, h, n),
    ensures
        uncommitted_chain(delivered, committed, h) == Some(
            Seq::new(n, |i: int| delivered[ancestor(delivered, h, i as nat)]),
        ),
    decreases n,
{
    let whole = Seq::new(n, |i: int| delivered[ancestor(delivered, h, i as nat)]);
    assert(ancestor(delivered, h, 0) == h);
    if n == 0 {
        assert(whole =~= Seq::empty());
    } else {
        let p = delivered[h].spec_header().prev;
        let m = (n - 1) as nat;
        let more = committed.insert(h);
        assert forall|k: nat| k < m implies delivered.contains_key(
            #[trigger] ancestor(delivered, p, k),
        ) && !more.contains(ancestor(delivered, p, k)) by {
            lemma_ancestor_of_parent(delivered, h, k);
            assert(ancestor(delivered, h, 0) != ancestor(delivered, h, k + 1));
        }
        assert forall|i: nat, j: nat| i < j < m implies #[trigger] ancestor(delivered, p, i)
            != #[trigger] ancestor(delivered, p, j) by {
            lemma_ancestor_of_parent(delivered, h, i);
            lemma_ancestor_of_parent(delivered, h, j);
            assert(ancestor(delivered, h, i + 1) != ancestor(delivered, h, j + 1));
        }
        lemma_ancestor_of_parent(delivered, h, m);
        if !committed.contains(ancestor(delivered, h, n)) {
            let k = choose|k: nat|
                k < n && #[trigger] ancestor(delivered, h, k) == ancestor(delivered, h, n);
            if k > 0 {
                lemma_ancestor_of_parent(delivered, h, (k - 1) as nat);
                assert(ancestor(delivered, p, (k - 1) as nat) == ancestor(delivered, p, m));
            }
        }
        law_ancestors_commit_together(delivered, more, p, m);
        let rest = uncommitted_chain(delivered, more, p)->0;
        assert forall|i: int| 0 <= i < n implies whole[i] == (seq![delivered[h]] + rest)[i] by {
            if i > 0 {
                lemma_ancestor_of_parent(delivered, h, (i - 1) as nat);
            }
        }
        assert(whole =~= seq![delivered[h]] + rest);
    }
}

/// Nothing commits with a block that has an ancestor which is missing: one that is not here though
/// neither it nor any block on the way to it has committed.
pub proof fn law_missing_ancestor_stops_commit<B: ChainBlock>(
    delivered: Map<Digest, Arc<B>>,
    committed: Set<Digest>,
    h: Digest,
    n: nat,
)
    requires
        forall|k: nat| k <= n ==> !committed.contains(#[trigger] ancestor(delivered, h, k)),
        forall|k: nat| k < n ==> delivered.contains_key(#[trigger] ancestor(delivered, h, k)),
        !delivered.contains_key(ancestor(delivered, h, n)),
    ensures
        uncommitted_chain(delivered, committed, h) is None,
    decreases n,
{
    assert(ancestor(delivered, h, 0) == h);
    if n > 0 && delivered.dom().finite() {
        let p = delivered[h].spec_header().prev;
        let m = (n - 1) as nat;
        let more = committed.insert(h);
        lemma_ancestor_of_parent(delivered, h, m);
        assert(delivered.contains_key(h));
        assert forall|k: nat| k < m implies delivered.contains_key(
            #[trigger] ancestor(delivered, p, k),
        ) by {
            lemma_ancestor_of_parent(delivered, h, k);
        }
        if exists|k: nat| k <= m && #[trigger] ancestor(delivered, p, k) == h {
            let k = choose|k: nat| k <= m && #[trigger] ancestor(delivered, p, k) == h;
            lemma_ancestor_of_parent(delivered, h, k);
            lemma_ancestors_on(delivered, h, k + 1, (n - (k + 1)) as nat);
            assert(delivered.contains_key(ancestor(delivered, h, (n - (k + 1)) as nat)));
        } else {
            assert forall|k: nat| k <= m implies !more.contains(
                #[trigger] ancestor(delivered, p, k),
            ) by {
                lemma_ancestor_of_parent(delivered, h, k);
            }
            law_missing_ancestor_stops_commit(delivered, more, p, m);
        }
    }
}

/// Where a chain commits it is the block and its uncommitted ancestors, as many as it holds.
pub proof fn law_chain_is_the_ancestors<B: ChainBlock>(
    delivered: Map<Digest, Arc<B>>,
    committed: Set<Digest>,
    h: Digest,
)
    requires
        delivered.dom().finite(),
        forall|k: Digest| #[trigger] delivered.contains_key(k) ==> delivered[k].spec_hash() == k,
        uncommitted_chain(delivered, committed, h) is Some,
    ensures
        are_uncommitted(
            delivered,
            committed,
            h,
            uncommitted_chain(delivered, committed, h)->0.len(),
        ),
{
    let chain = uncommitted_chain(delivered, committed, h)->0;
    let n = chain.len();
    law_commit_is_a_chain(delivered, committed, h);
    assert(ancestor(delivered, h, 0) == h);
    lemma_chain_ancestors(delivered, h, chain);
    assert forall|k: nat| k < n implies delivered.contains_key(
        #[trigger] ancestor(delivered, h, k),
    ) && !committed.contains(ancestor(delivered, h, k)) by {
        assert(chain[k as int].spec_hash() == ancestor(delivered, h, k));
    }
    assert forall|i: nat, j: nat| i < j < n implies #[trigger] ancestor(delivered, h, i)
        != #[trigger] ancestor(delivered, h, j) by {
        assert(chain[i as int].spec_hash() == ancestor(delivered, h, i));
        assert(chain[j as int].spec_hash() == ancestor(delivered, h, j));
    }
    if n > 0 {
        let last = (n - 1) as nat;
        assert(chain[last as int].spec_hash() == ancestor(delivered, h, last));
        assert(ancestor(delivered, h, n) == chain.last().spec_header().prev);
        if !committed.contains(ancestor(delivered, h, n)) {
            let i = choose|i: int|
                0 <= i < chain.len() && (#[trigger] chain[i]).spec_hash()
                    == chain.last().spec_header().prev;
            assert(ancestor(delivered, h, i as nat) == ancestor(delivered, h, n));
        }
    }
}

proof fn lemma_chain_ancestors<B: ChainBlock>(
    delivered: Map<Digest, Arc<B>>,
    h: Digest,
    chain: Seq<Arc<B>>,
)
    requires
        chain.len() > 0 ==> chain[0].spec_hash() == h,
        forall|i: int|
            0 <= i < chain.len() ==> delivered[(#[trigger] chain[i]).spec_hash()] == chain[i],
        forall|i: int|
            0 <= i < chain.len() - 1 ==> chain[i + 1].spec_hash() == (
            #[trigger] chain[i]).spec_header().prev,
    ensures
        forall|i: int|
            0 <= i < chain.len() ==> (#[trigger] chain[i]).spec_hash() == ancestor(
                delivered,
                h,
                i as nat,
            ),
    decreases chain.len(),
{
    if chain.len() > 0 {
        let a = chain.drop_last();
        let n = chain.len() - 1;
        assert forall|i: int| 0 <= i < a.len() implies delivered[(
        #[trigger] a[i]).spec_hash()] == a[i] by {
            assert(a[i] == chain[i]);
        }
        assert forall|i: int| 0 <= i < a.len() - 1 implies a[i + 1].spec_hash() == (
        #[trigger] a[i]).spec_header().prev by {
            assert(a[i] == chain[i] && a[i + 1] == chain[i + 1]);
        }
        lemma_chain_ancestors(delivered, h, a);
        assert forall|i: int| 0 <= i < chain.len() implies (#[trigger] chain[i]).spec_hash()
            == ancestor(delivered, h, i as nat) by {
            if i < n {
                assert(a[i].spec_hash() == ancestor(delivered, h, i as nat));
            } else if n > 0 {
                assert(a[n - 1].spec_hash() == ancestor(delivered, h, (n - 1) as nat));
                assert(chain[(n - 1) + 1].spec_hash() == chain[n - 1].spec_header().prev);
            }
        }
    }
}

/// A commit adds the block and its uncommitted ancestors to what has committed, and nothing else;
/// what had committed stays as it was.
pub proof fn law_commit_adds_ancestors<B: ChainBlock>(s: StorageState<B>, h: Digest, n: nat)
    requires
        s.inv(),
        are_uncommitted(s.delivered, s.committed.dom(), h, n),
    ensures
        s.commits(h) is Some,
        ({
            let t = s.commit_all(s.commits(h)->0);
            &&& forall|d: Digest| #[trigger]
                t.committed.contains_key(d) <==> s.committed.contains_key(d) || exists|k: nat|
                    k < n && #[trigger] ancestor(s.delivered, h, k) == d
            &&& forall|k: nat|
                k < n ==> t.committed[#[trigger] ancestor(s.delivered, h, k)]
                    == s.delivered[ancestor(s.delivered, h, k)]
            &&& forall|d: Digest| #[trigger]
                s.committed.contains_key(d) ==> t.committed[d] == s.committed[d]
            &&& t.delivered == s.delivered
            &&& t.by_height == s.by_height
        }),
{
    law_ancestors_commit_together(s.delivered, s.committed.dom(), h, n);
    law_commit_is_a_chain(s.delivered, s.committed.dom(), h);
    let chain = s.commits(h)->0;
    let t = s.commit_all(chain);
    lemma_with_committed(s.committed, chain);
    lemma_chain_ancestors(s.delivered, h, chain);
    assert forall|d: Digest| #[trigger]
        t.committed.contains_key(d) <==> s.committed.contains_key(d) || exists|k: nat|
            k < n && #[trigger] ancestor(s.delivered, h, k) == d by {
        if exists|i: int| 0 <= i < chain.len() && (#[trigger] chain[i]).spec_hash() == d {
            let i = choose|i: int| 0 <= i < chain.len() && (#[trigger] chain[i]).spec_hash() == d;
            assert(ancestor(s.delivered, h, i as nat) == d);
        }
        if exists|k: nat| k < n && #[trigger] ancestor(s.delivered, h, k) == d {
            let k = choose|k: nat| k < n && #[trigger] ancestor(s.delivered, h, k) == d;
            assert(chain[k as int].spec_hash() == d);
        }
    }
    assert forall|k: nat| k < n implies t.committed[#[trigger] ancestor(s.delivered, h, k)]
        == s.delivered[ancestor(s.delivered, h, k)] by {
        assert(chain[k as int].spec_hash() == ancestor(s.delivered, h, k));
    }
    assert forall|d: Digest| #[trigger] s.committed.contains_key(d) implies t.committed[d]
        == s.committed[d] by {
        assert forall|i: int| 0 <= i < chain.len() implies (#[trigger] chain[i]).spec_hash() != d by {
            assert(!s.committed.dom().contains(chain[i].spec_hash()));
        }
    }
}

/// A block that is delivered is found under its hash and at its height from then on; whatever else
/// was found stays, and nothing commits by that. A block that commits is found among the
/// committed ones.
pub proof fn law_filed_is_found<B: ChainBlock>(
    s: StorageState<B>,
    b: Arc<B>,
    d: Digest,
    height: Height,
)
    ensures
        s.deliver(b).delivered.contains_key(b.spec_hash()),
        s.deliver(b).delivered[b.spec_hash()] == b,
        s.deliver(b).by_height.contains_key(b.spec_header().height),
        s.deliver(b).by_height[b.spec_header().height] == b,
        s.deliver(b).committed == s.committed,
        d != b.spec_hash() ==> {
            &&& s.deliver(b).delivered.contains_key(d) == s.delivered.contains_key(d)
            &&& s.deliver(b).delivered[d] == s.delivered[d]
            &&& s.commit(b).committed.contains_key(d) == s.committed.contains_key(d)
            &&& s.commit(b).committed[d] == s.committed[d]
        },
        height != b.spec_header().height ==> {
            &&& s.deliver(b).by_height.contains_key(height) == s.by_height.contains_key(height)
            &&& s.deliver(b).by_height[height] == s.by_height[height]
        },
        s.commit(b).committed.contains_key(b.spec_hash()),
        s.commit(b).committed[b.spec_hash()] == b,
        s.commit(b).delivered == s.delivered,
        s.commit(b).by_height == s.by_height,
{
}

/// A commit never leaves a gap: if every committed block but the first of all has its parent
/// committed, that is so after the next commit too, and nothing is ever uncommitted.
pub proof fn law_commit_leaves_no_gap<B: ChainBlock>(
    s: StorageState<B>,
    h: Digest,
    genesis: Digest,
)
    requires
        s.inv(),
        s.closed_below(genesis),
        s.committed.contains_key(genesis),
        s.commits(h) is Some,
    ensures
        s.commit_all(s.commits(h)->0).closed_below(genesis),
        s.committed.dom().subset_of(s.commit_all(s.commits(h)->0).committed.dom()),
        s.commit_all(s.commits(h)->0).committed.contains_key(h),
{
    let chain = s.commits(h)->0;
    let t = s.commit_all(chain);
    law_commit_is_a_chain(s.delivered, s.committed.dom(), h);
    lemma_with_committed(s.committed, chain);
    assert forall|k: Digest| #[trigger]
        t.committed.contains_key(k) && k != genesis implies t.committed.contains_key(
        t.committed[k].spec_header().prev,
    ) by {
        if s.committed.contains_key(k) {
            assert forall|i: int| 0 <= i < chain.len() implies (#[trigger] chain[i]).spec_hash()
                != k by {
                assert(!s.committed.dom().contains(chain[i].spec_hash()));
            }
            assert(t.committed[k] == s.committed[k]);
            assert(s.committed.contains_key(s.committed[k].spec_header().prev));
        } else {
            let i = choose|i: int| 0 <= i < chain.len() && (#[trigger] chain[i]).spec_hash() == k;
            assert(t.committed[k] == chain[i]);
            let p = chain[i].spec_header().prev;
            if i < chain.len() - 1 {
                assert(chain[i + 1].spec_hash() == p);
                assert(t.committed.contains_key(chain[i + 1].spec_hash()));
            } else {
                assert(chain.last() == chain[i]);
                if !s.committed.dom().contains(p) {
                    let j = choose|j: int|
                        0 <= j < chain.len() && (#[trigger] chain[j]).spec_hash() == p;
                    assert(t.committed.contains_key(chain[j].spec_hash()));
                }
            }
        }
    }
    if chain.len() > 0 {
        assert(t.committed.contains_key(chain[0].spec_hash()));
    }
}

/// As long as every delivered block has committed or has its parent delivered, no delivered
/// block has a missing ancestor: it can always commit.
pub proof fn law_delivered_can_commit<B: ChainBlock>(
    delivered: Map<Digest, Arc<B>>,
    committed: Set<Digest>,
    h: Digest,
)
    requires
        delivered.dom().finite(),
        forall|k: Digest| #[trigger]
            delivered.contains_key(k) ==> committed.contains(k) || committed.contains(
                delivered[k].spec_header().prev,
            ) || delivered.contains_key(delivered[k].spec_header().prev),
        delivered.contains_key(h) || committed.contains(h),
    ensures
        uncommitted_chain(delivered, committed, h) is Some,
    decreases delivered.dom().difference(committed).len(),
{
    if !committed.contains(h) {
        let d = delivered.dom();
        assert(d.difference(committed.insert(h)) =~= d.difference(committed).remove(h));
        assert(d.difference(committed).contains(h));
        law_delivered_can_commit(
            delivered,
            committed.insert(h),
            delivered[h].spec_header().prev,
        );
    }
}

} // verus!
