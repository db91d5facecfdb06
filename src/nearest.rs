use vstd::prelude::*;

use crate::distance::{distance, hamming_distance, HammingCode};

verus! {

/// The distance from the code held by candidate `e` to `v` (zero for an empty candidate).
pub open spec fn entry_distance<T>(e: Option<(u128, T)>, v: u128) -> nat {
    match e {
        Some((c, _)) => distance(c, v),
        None => 0,
    }
}

/// Candidate `i` of `s` is present, no present candidate is closer to `v`, and every present
/// candidate before it is strictly farther from `v`.
pub open spec fn is_first_nearest<T>(s: Seq<Option<(u128, T)>>, v: u128, i: int) -> bool {
    &&& 0 <= i < s.len()
    &&& s[i] is Some
    &&& forall|j: int|
        0 <= j < s.len() && #[trigger] s[j] is Some ==> entry_distance(s[i], v) <= entry_distance(
            s[j],
            v,
        )
    &&& forall|j: int|
        0 <= j < i && #[trigger] s[j] is Some ==> entry_distance(s[j], v) > entry_distance(s[i], v)
}

/// The first candidate of `s`, in order, at minimum distance from `v`; `None` when no
/// candidate is present.
pub open spec fn nearest_of<T>(s: Seq<Option<(u128, T)>>, v: u128) -> Option<(u128, T)> {
    if exists|i: int| is_first_nearest(s, v, i) {
        s[choose|i: int| is_first_nearest(s, v, i)]
    } else {
        None
    }
}

/// At most one position is the first nearest.
pub proof fn lemma_first_nearest_unique<T>(s: Seq<Option<(u128, T)>>, v: u128, i: int, j: int)
    requires
        is_first_nearest(s, v, i),
        is_first_nearest(s, v, j),
    ensures
        i == j,
{
    if i < j {
        assert(s[i] is Some);
    } else if j < i {
        assert(s[j] is Some);
    }
}

/// Where some candidate is present, a first nearest one exists.
pub proof fn lemma_first_nearest_exists<T>(s: Seq<Option<(u128, T)>>, v: u128, k: int)
    requires
        0 <= k < s.len(),
        s[k] is Some,
    ensures
        exists|i: int| is_first_nearest(s, v, i),
    decreases s.len(),
{
    let n = s.len() - 1;
    let p = s.drop_last();
    if exists|m: int| 0 <= m < n && p[m] is Some {
        let m = choose|m: int| 0 <= m < n && p[m] is Some;
        lemma_first_nearest_exists(p, v, m);
        let i0 = choose|i: int| is_first_nearest(p, v, i);
        assert(forall|j: int| 0 <= j < n ==> p[j] == s[j]);
        if s[n] is Some && entry_distance(s[n], v) < entry_distance(s[i0], v) {
            assert(is_first_nearest(s, v, n)) by {
                assert forall|j: int| 0 <= j < s.len() && #[trigger] s[j] is Some implies
                    entry_distance(s[n], v) <= entry_distance(s[j], v) by {
                    if j < n {
                        assert(p[j] is Some);
                    }
                }
                assert forall|j: int| 0 <= j < n && #[trigger] s[j] is Some implies
                    entry_distance(s[j], v) > entry_distance(s[n], v) by {
                    assert(p[j] is Some);
                }
            }
        } else {
            assert(is_first_nearest(s, v, i0)) by {
                assert forall|j: int| 0 <= j < s.len() && #[trigger] s[j] is Some implies
                    entry_distance(s[i0], v) <= entry_distance(s[j], v) by {
                    if j < n {
                        assert(p[j] is Some);
                    }
                }
                assert forall|j: int| 0 <= j < i0 && #[trigger] s[j] is Some implies
                    entry_distance(s[j], v) > entry_distance(s[i0], v) by {
                    assert(p[j] is Some);
                }
            }
        }
    } else {
        assert(is_first_nearest(s, v, n)) by {
            assert forall|j: int| 0 <= j < n && #[trigger] s[j] is Some implies false by {
                assert(p[j] is Some);
            }
        }
    }
}

/// `nearest_of` is `None` exactly when no candidate is present; otherwise it is the
/// candidate at the first nearest position.
pub proof fn lemma_nearest_of<T>(s: Seq<Option<(u128, T)>>, v: u128)
    ensures
        nearest_of(s, v) is None <==> forall|j: int| 0 <= j < s.len() ==> #[trigger] s[j] is None,
        nearest_of(s, v) is Some ==> exists|i: int|
            is_first_nearest(s, v, i) && s[i] == nearest_of(s, v),
{
    if exists|k: int| 0 <= k < s.len() && s[k] is Some {
        let k = choose|k: int| 0 <= k < s.len() && s[k] is Some;
        lemma_first_nearest_exists(s, v, k);
    }
}

/// Returns the first present candidate, in order, whose code is nearest to `v`, or `None`
/// when no candidate is present.
pub fn nearest<T: Copy>(candidates: &[Option<(HammingCode, T)>], v: HammingCode) -> (r: Option<
    (HammingCode, T),
>)
    ensures
        r == nearest_of(candidates@, v),
{
    let ghost s = candidates@;
    let mut min: u32 = u32::MAX;
    let mut best: Option<(HammingCode, T)> = None;
    let ghost mut bi: int = 0;
    let mut n: usize = 0;
    while n < candidates.len()
        invariant
            n <= s.len(),
            s == candidates@,
            best is None ==> min == u32::MAX && forall|j: int| 0 <= j < n ==> #[trigger] s[j] is None,
            best is Some ==> {
                &&& 0 <= bi < n
                &&& s[bi] == best
                &&& min == entry_distance(best, v)
                &&& forall|j: int|
                    0 <= j < n && #[trigger] s[j] is Some ==> entry_distance(s[bi], v)
                        <= entry_distance(s[j], v)
                &&& forall|j: int|
                    0 <= j < bi && #[trigger] s[j] is Some ==> entry_distance(s[j], v)
                        > entry_distance(s[bi], v)
            },
        decreases s.len() - n,
    {
        match &candidates[n] {
            Some((k, i)) => {
                let d = hamming_distance(*k, v);
                if d < min {
                    min = d;
                    best = Some((*k, *i));
                    proof {
                        bi = n as int;
                    }
                }
            },
            None => {},
        }
        n = n + 1;
    }
    proof {
        if best is Some {
            assert(is_first_nearest(s, v, bi));
            let c = choose|i: int| is_first_nearest(s, v, i);
            lemma_first_nearest_unique(s, v, bi, c);
        } else {
            assert forall|i: int| !is_first_nearest(s, v, i) by {
                if 0 <= i < s.len() {
                    assert(s[i] is None);
                }
            }
        }
    }
    best
}

} // verus!
