use vstd::arithmetic::power2::pow2;
use vstd::bits::{lemma_usize_pow2_no_overflow, lemma_usize_shl_is_mul};
use vstd::prelude::*;

use crate::distance::HammingCode;
use crate::distance::distance;
use crate::hash::{hash, hash_of, lemma_hash_of_bound};
use crate::nearest::{lemma_nearest_of, nearest, nearest_of};
use crate::random::shuffled_positions;

verus! {

/// The largest number of hyperplanes per table: a table holds `2^k` buckets.
pub const MAX_K: u32 = 24;

/// Whether `m` has exactly one set bit, at a position below 128.
pub open spec fn is_bit_mask(m: u128) -> bool {
    exists|p: u32| p < 128 && m == #[trigger] (1u128 << p)
}

/// The abstract state of a table: its hyperplane masks and its buckets, each an
/// insertion-ordered sequence of entries.
pub struct TableView<T> {
    pub planes: Seq<u128>,
    pub buckets: Seq<Seq<Option<(u128, T)>>>,
}

impl<T> TableView<T> {
    /// There are at most `MAX_K` hyperplanes and exactly `2^k` buckets.
    pub open spec fn wf(self) -> bool {
        &&& self.planes.len() <= MAX_K
        &&& self.buckets.len() == pow2(self.planes.len())
    }

    /// The bucket that `v` hashes to.
    pub open spec fn bucket_index(self, v: u128) -> nat {
        hash_of(self.planes, v)
    }

    /// The table after appending `(code, payload)` to the bucket that `code` hashes to.
    pub open spec fn insert(self, code: u128, payload: T) -> TableView<T> {
        let h = self.bucket_index(code) as int;
        TableView {
            planes: self.planes,
            buckets: self.buckets.update(h, self.buckets[h].push(Some((code, payload)))),
        }
    }

    /// The first entry, in insertion order, of the bucket of `v` whose code is nearest to `v`.
    pub open spec fn get(self, v: u128) -> Option<(u128, T)> {
        nearest_of(self.buckets[self.bucket_index(v) as int], v)
    }
}

/// One hash table: a set of sampled bit positions and `2^k` buckets.
pub struct HammingTable<T> {
    hyperplanes: Vec<HammingCode>,
    buckets: Vec<Vec<Option<(HammingCode, T)>>>,
}

impl<T> View for HammingTable<T> {
    type V = TableView<T>;

    closed spec fn view(&self) -> TableView<T> {
        TableView {
            planes: self.hyperplanes@,
            buckets: self.buckets@.map_values(|b: Vec<Option<(HammingCode, T)>>| b@),
        }
    }
}

impl<T: Copy> HammingTable<T> {
    /// Creates an empty table whose `k` hyperplanes are distinct bit positions drawn at random.
    pub fn new(k: u32) -> (t: HammingTable<T>)
        requires
            k <= MAX_K,
        ensures
            t@.wf(),
            t@.planes.len() == k,
            t@.planes.no_duplicates(),
            forall|i: int| 0 <= i < k ==> is_bit_mask(#[trigger] t@.planes[i]),
            forall|h: int| 0 <= h < t@.buckets.len() ==> (#[trigger] t@.buckets[h]).len() == 0,
    {
        let b = shuffled_positions();
        let mut hyperplanes: Vec<HammingCode> = Vec::new();
        let mut i: usize = 0;
        while i < k as usize
            invariant
                i <= k <= MAX_K,
                b@.len() == 128,
                b@.no_duplicates(),
                forall|j: int| 0 <= j < 128 ==> #[trigger] b@[j] < 128,
                hyperplanes@.len() == i,
                forall|j: int| 0 <= j < i ==> #[trigger] hyperplanes@[j] == 1u128 << b@[j],
            decreases k - i,
        {
            hyperplanes.push(1u128 << b[i]);
            i = i + 1;
        }
        proof {
            assert forall|j: int| 0 <= j < k implies is_bit_mask(#[trigger] hyperplanes@[j]) by {
                assert(b@[j] < 128);
            }
            assert forall|x: int, y: int|
                0 <= x < hyperplanes@.len() && 0 <= y < hyperplanes@.len() && x != y implies
                hyperplanes@[x] != hyperplanes@[y] by {
                let p = b@[x];
                let q = b@[y];
                assert(p < 128 && q < 128 && p != q ==> (1u128 << p) != (1u128 << q))
                    by (bit_vector);
            }
        }
        let count: usize = 1usize << k as usize;
        proof {
            lemma_usize_pow2_no_overflow(k as nat);
            lemma_usize_shl_is_mul(1usize, k as usize);
        }
        let mut buckets: Vec<Vec<Option<(HammingCode, T)>>> = Vec::new();
        let mut n: usize = 0;
        while n < count
            invariant
                n <= count,
                buckets@.len() == n,
                forall|h: int| 0 <= h < n ==> (#[trigger] buckets@[h])@.len() == 0,
            decreases count - n,
        {
            buckets.push(Vec::new());
            n = n + 1;
        }
        HammingTable { hyperplanes, buckets }
    }

    /// Returns the bucket that `v` hashes to.
    pub fn hash(&self, v: HammingCode) -> (r: u32)
        requires
            self@.wf(),
        ensures
            r == self@.bucket_index(v),
            r < self@.buckets.len(),
    {
        let r = hash(self.hyperplanes.as_slice(), v);
        r
    }

    /// Appends `(k, v)` to the bucket that `k` hashes to.
    pub fn insert(&mut self, k: HammingCode, v: T)
        requires
            old(self)@.wf(),
        ensures
            final(self)@ == old(self)@.insert(k, v),
            final(self)@.wf(),
    {
        let h = self.hash(k);
        self.buckets[h as usize].push(Some((k, v)));
        proof {
            assert(self@.buckets =~= old(self)@.insert(k, v).buckets);
        }
    }

    /// Returns the entry of the bucket of `k` whose code is nearest to `k`, the first inserted
    /// among equals; `None` when that bucket is empty.
    pub fn get(&self, k: HammingCode) -> (r: Option<(HammingCode, T)>)
        requires
            self@.wf(),
        ensures
            r == self@.get(k),
    {
        let h = self.hash(k);
        nearest(self.buckets[h as usize].as_slice(), k)
    }
}

/// Inserting into a table leaves its hyperplanes as they were, so a code hashes to the same
/// bucket before and after any insertion, and twice in a row.
pub proof fn lemma_hash_stable<T>(t: TableView<T>, code: u128, payload: T, v: u128)
    ensures
        t.insert(code, payload).planes == t.planes,
        t.insert(code, payload).bucket_index(v) == t.bucket_index(v),
        t.bucket_index(v) == t.bucket_index(v),
{
}

/// With no hyperplanes there is a single bucket: every code hashes to it, and a lookup finds
/// nothing exactly when it holds no entry, and otherwise one of its entries, whatever the query.
pub proof fn lemma_single_bucket<T>(t: TableView<T>, v: u128)
    requires
        t.wf(),
        t.planes.len() == 0,
    ensures
        t.buckets.len() == 1,
        t.bucket_index(v) == 0,
        t.get(v) is None <==> forall|j: int|
            0 <= j < t.buckets[0].len() ==> #[trigger] t.buckets[0][j] is None,
        t.get(v) is Some ==> t.buckets[0].contains(t.get(v)),
{
    vstd::arithmetic::power2::lemma2_to64();
    lemma_nearest_of(t.buckets[0], v);
}

/// Two codes inserted one after the other into the empty bucket of a query, at equal
/// distance from it: the lookup returns the first of them.
pub proof fn lemma_insertion_order_tie<T>(
    t: TableView<T>,
    a: u128,
    pa: T,
    b: u128,
    pb: T,
    q: u128,
)
    requires
        t.wf(),
        t.bucket_index(a) == t.bucket_index(q),
        t.bucket_index(b) == t.bucket_index(q),
        t.buckets[t.bucket_index(q) as int].len() == 0,
        distance(a, q) == distance(b, q),
    ensures
        t.insert(a, pa).insert(b, pb).get(q) == Some((a, pa)),
{
    lemma_hash_of_bound(t.planes, q);
    let h = t.bucket_index(q) as int;
    let s = t.insert(a, pa).insert(b, pb).buckets[h];
    assert(s =~= seq![Some((a, pa)), Some((b, pb))]);
    lemma_nearest_of(s, q);
    let i = choose|i: int| crate::nearest::is_first_nearest(s, q, i) && s[i] == nearest_of(s, q);
    assert(s[0] is Some);
    if i == 1 {
        assert(false);
    }
}

} // verus!
