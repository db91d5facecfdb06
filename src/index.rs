use vstd::prelude::*;

use crate::distance::HammingCode;
use crate::hash::lemma_hash_of_bound;
use crate::nearest::{entry_distance, is_first_nearest, lemma_nearest_of, nearest, nearest_of};
use crate::table::{is_bit_mask, HammingTable, TableView, MAX_K};

verus! {

/// The value-store slot that an entry refers to (zero for an empty one).
pub open spec fn slot_of(e: Option<(u128, usize)>) -> nat {
    match e {
        Some((_, i)) => i as nat,
        None => 0,
    }
}

/// Every entry of every bucket of `t` refers to a slot below `n`.
pub open spec fn slots_below(t: TableView<usize>, n: nat) -> bool {
    forall|h: int, e: int|
        0 <= h < t.buckets.len() && 0 <= e < t.buckets[h].len() && (#[trigger] t.buckets[h][e]) is Some
            ==> slot_of(t.buckets[h][e]) < n
}

/// The abstract state of an index: its tables, whose entries carry slots of the value store,
/// and the value store itself.
pub struct LshView<T> {
    pub tables: Seq<TableView<usize>>,
    pub data: Seq<T>,
}

impl<T> LshView<T> {
    /// Every table is well formed and refers only to filled slots of the value store.
    pub open spec fn wf(self) -> bool {
        forall|j: int|
            0 <= j < self.tables.len() ==> (#[trigger] self.tables[j]).wf() && slots_below(
                self.tables[j],
                self.data.len(),
            )
    }

    /// What each table, in order, finds for `v`.
    pub open spec fn candidates(self, v: u128) -> Seq<Option<(u128, usize)>> {
        Seq::new(self.tables.len(), |j: int| self.tables[j].get(v))
    }

    /// The first table's find, in table order, at minimum distance from `v`.
    pub open spec fn best(self, v: u128) -> Option<(u128, usize)> {
        nearest_of(self.candidates(v), v)
    }

    /// The matched code and its payload for `v`, if any table finds an entry.
    pub open spec fn lookup(self, v: u128) -> Option<(u128, T)> {
        match self.best(v) {
            Some((c, i)) => Some((c, self.data[i as int])),
            None => None,
        }
    }

    /// The index after storing `payload` in the next slot and adding `(code, slot)` to every
    /// table.
    pub open spec fn insert(self, code: u128, payload: T) -> LshView<T> {
        LshView {
            tables: Seq::new(
                self.tables.len(),
                |j: int| self.tables[j].insert(code, self.data.len() as usize),
            ),
            data: self.data.push(payload),
        }
    }
}

/// An ensemble of independently hashed tables over a shared value store.
pub struct HammingLSH<T> {
    tables: Vec<HammingTable<usize>>,
    data: Vec<T>,
}

impl<T> View for HammingLSH<T> {
    type V = LshView<T>;

    closed spec fn view(&self) -> LshView<T> {
        LshView { tables: self.tables@.map_values(|t: HammingTable<usize>| t@), data: self.data@ }
    }
}

/// A table's find is one of the entries of the bucket it searched.
proof fn lemma_table_get_in_bucket(t: TableView<usize>, v: u128, n: nat)
    requires
        t.wf(),
        slots_below(t, n),
    ensures
        t.get(v) is Some ==> slot_of(t.get(v)) < n,
{
    lemma_hash_of_bound(t.planes, v);
    let b = t.buckets[t.bucket_index(v) as int];
    lemma_nearest_of(b, v);
    if t.get(v) is Some {
        let i = choose|i: int| is_first_nearest(b, v, i) && b[i] == nearest_of(b, v);
        assert(t.buckets[t.bucket_index(v) as int][i] is Some);
    }
}

impl<T> HammingLSH<T> {
    /// Creates an empty index of `l` tables, each with `k` hyperplanes drawn independently.
    pub fn new(k: u32, l: u32) -> (r: HammingLSH<T>)
        requires
            k <= MAX_K,
        ensures
            r@.wf(),
            r@.tables.len() == l,
            r@.data.len() == 0,
            forall|j: int|
                0 <= j < l ==> {
                    &&& (#[trigger] r@.tables[j]).planes.len() == k
                    &&& r@.tables[j].planes.no_duplicates()
                    &&& forall|i: int| 0 <= i < k ==> is_bit_mask(#[trigger] r@.tables[j].planes[i])
                    &&& forall|h: int|
                        0 <= h < r@.tables[j].buckets.len() ==> (
                        #[trigger] r@.tables[j].buckets[h]).len() == 0
                },
    {
        let mut tables: Vec<HammingTable<usize>> = Vec::new();
        for n in 0..l
            invariant
                k <= MAX_K,
                tables@.len() == n,
                forall|j: int|
                    0 <= j < n ==> {
                        &&& (#[trigger] tables@[j])@.wf()
                        &&& tables@[j]@.planes.len() == k
                        &&& tables@[j]@.planes.no_duplicates()
                        &&& forall|i: int| 0 <= i < k ==> is_bit_mask(#[trigger] tables@[j]@.planes[i])
                        &&& forall|h: int|
                            0 <= h < tables@[j]@.buckets.len() ==> (
                            #[trigger] tables@[j]@.buckets[h]).len() == 0
                    },
        {
            tables.push(HammingTable::<usize>::new(k));
        }
        let r = HammingLSH { tables, data: Vec::new() };
        assert forall|j: int| 0 <= j < r@.tables.len() implies slots_below(
            #[trigger] r@.tables[j],
            0,
        ) by {
            assert(r@.tables[j] == r.tables@[j]@);
        }
        r
    }

    /// Stores `v` in the next slot of the value store and adds `(k, slot)` to every table.
    pub fn insert(&mut self, k: HammingCode, v: T)
        requires
            old(self)@.wf(),
        ensures
            final(self)@ == old(self)@.insert(k, v),
            final(self)@.wf(),
    {
        let ghost before = self@;
        let i = self.data.len();
        self.data.push(v);
        let n = self.tables.len();
        let mut j: usize = 0;
        while j < n
            invariant
                n == self.tables@.len(),
                j <= n,
                before.tables.len() == n,
                before.wf(),
                i == before.data.len(),
                self.data@ == before.data.push(v),
                forall|m: int|
                    0 <= m < j ==> (#[trigger] self.tables@[m])@ == before.tables[m].insert(k, i),
                forall|m: int| j <= m < n ==> (#[trigger] self.tables@[m])@ == before.tables[m],
            decreases n - j,
        {
            proof {
                assert(self.tables@[j as int]@ == before.tables[j as int]);
                assert(before.tables[j as int].wf());
            }
            self.tables[j].insert(k, i);
            j = j + 1;
        }
        proof {
            let after = before.insert(k, v);
            assert(self@.tables =~= after.tables);
            assert forall|m: int| 0 <= m < n implies (#[trigger] after.tables[m]).wf() && slots_below(
                after.tables[m],
                after.data.len(),
            ) by {
                let t = before.tables[m];
                assert(t.wf() && slots_below(t, before.data.len()));
                lemma_hash_of_bound(t.planes, k);
                let u = after.tables[m];
                assert forall|h: int, e: int|
                    0 <= h < u.buckets.len() && 0 <= e < u.buckets[h].len() && (
                    #[trigger] u.buckets[h][e]) is Some implies slot_of(u.buckets[h][e])
                    < after.data.len() by {
                    if h == t.bucket_index(k) as int && e == t.buckets[h].len() {
                    } else {
                        assert(u.buckets[h][e] == t.buckets[h][e]);
                    }
                }
            }
        }
    }

    /// Returns the entry nearest to `v` among what the tables find in the buckets of `v`, the
    /// first table winning among equals, with its payload; `None` when every such bucket is empty.
    pub fn get(&self, v: HammingCode) -> (r: Option<(HammingCode, &T)>)
        requires
            self@.wf(),
        ensures
            match r {
                Some((c, p)) => self@.lookup(v) == Some((c, *p)),
                None => self@.lookup(v) is None,
            },
    {
        let ghost model = self@;
        let mut c: Vec<Option<(HammingCode, usize)>> = Vec::new();
        let n = self.tables.len();
        let mut j: usize = 0;
        while j < n
            invariant
                n == self.tables@.len(),
                model == self@,
                model.wf(),
                j <= n,
                c@.len() == j,
                forall|m: int| 0 <= m < j ==> #[trigger] c@[m] == model.candidates(v)[m],
            decreases n - j,
        {
            proof {
                assert(model.tables[j as int] == self.tables@[j as int]@);
            }
            c.push(self.tables[j].get(v));
            j = j + 1;
        }
        assert(c@ =~= model.candidates(v));
        match nearest(c.as_slice(), v) {
            Some((k, i)) => {
                proof {
                    let s = model.candidates(v);
                    lemma_nearest_of(s, v);
                    let x = choose|x: int| is_first_nearest(s, v, x) && s[x] == nearest_of(s, v);
                    lemma_table_get_in_bucket(model.tables[x], v, model.data.len());
                }
                Some((k, &self.data[i]))
            },
            None => None,
        }
    }
}

/// The ensemble never does worse than one of its tables: where any table finds an entry for
/// `v`, the index finds one too, no farther from `v` than that table's.
pub proof fn lemma_no_worse_than_any_table<T>(l: LshView<T>, v: u128, j: int)
    requires
        0 <= j < l.tables.len(),
        l.tables[j].get(v) is Some,
    ensures
        l.best(v) is Some,
        entry_distance(l.best(v), v) <= entry_distance(l.tables[j].get(v), v),
{
    let s = l.candidates(v);
    lemma_nearest_of(s, v);
    assert(s[j] is Some);
    let i = choose|i: int| is_first_nearest(s, v, i) && s[i] == nearest_of(s, v);
}

} // verus!
