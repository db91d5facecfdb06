use vstd::prelude::*;

use crate::distance::{bit_set, distance, lemma_flip_clear_bit, lemma_ones_below_zero, ones_below, HammingCode};
use crate::random::shuffled_positions;

verus! {

/// Returns `v` with `bits` distinct bit positions, drawn at random, flipped; the result lies
/// at distance exactly `bits` from `v`.
pub fn hamming_peturb(v: HammingCode, bits: u32) -> (r: HammingCode)
    requires
        bits <= 128,
    ensures
        distance(v, r) == bits,
{
    let b = shuffled_positions();
    let mut a: HammingCode = v;
    proof {
        assert(v ^ v == 0) by (bit_vector);
        lemma_ones_below_zero(128);
        assert forall|q: u128| q < 128 implies !#[trigger] bit_set(v ^ a, q) by {
            assert(0u128 & (1u128 << q) == 0) by (bit_vector);
        }
    }
    let mut i: usize = 0;
    while i < bits as usize
        invariant
            i <= bits <= 128,
            b@.len() == 128,
            b@.no_duplicates(),
            forall|j: int| 0 <= j < 128 ==> #[trigger] b@[j] < 128,
            ones_below(v ^ a, 128) == i,
            forall|q: u128|
                q < 128 && (forall|j: int| 0 <= j < i ==> b@[j] != q) ==> !#[trigger] bit_set(
                    v ^ a,
                    q,
                ),
        decreases bits - i,
    {
        let p: u32 = b[i];
        proof {
            let x = v ^ a;
            let pp = p as u128;
            assert(forall|j: int| 0 <= j < i ==> b@[j] != p);
            assert(!bit_set(x, pp));
            lemma_flip_clear_bit(x, pp, 128);
            assert(v ^ (a ^ (1u128 << p)) == x ^ (1u128 << pp)) by (bit_vector)
                requires
                    x == v ^ a,
                    pp == p as u128,
            ;
            assert forall|q: u128|
                q < 128 && (forall|j: int| 0 <= j < i + 1 ==> b@[j] != q) implies !#[trigger] bit_set(
                x ^ (1u128 << pp),
                q,
            ) by {
                assert(b@[i as int] != q);
                assert(!bit_set(x, q));
                assert(q != pp && q < 128 && pp < 128 && x & (1u128 << q) == 0 ==> (x ^ (1u128
                    << pp)) & (1u128 << q) == 0) by (bit_vector);
            }
        }
        a = a ^ (1u128 << p);
        i = i + 1;
    }
    a
}

} // verus!
