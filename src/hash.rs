use vstd::arithmetic::power2::{lemma2_to64, lemma_pow2_unfold, pow2};
use vstd::bits::{lemma_u32_pow2_no_overflow, lemma_u32_shl_is_mul};
use vstd::prelude::*;

use crate::distance::HammingCode;

verus! {

/// The bucket index that the hyperplane masks `planes` give to `v`: bit `i` of the index is
/// set exactly when `v` shares a set bit with `planes[i]`.
pub open spec fn hash_of(planes: Seq<u128>, v: u128) -> nat
    decreases planes.len(),
{
    if planes.len() == 0 {
        0
    } else {
        hash_of(planes.drop_last(), v) + if v & planes.last() != 0 {
            pow2((planes.len() - 1) as nat)
        } else {
            0nat
        }
    }
}

/// A bucket index for `k` hyperplanes lies in `[0, 2^k)`.
pub proof fn lemma_hash_of_bound(planes: Seq<u128>, v: u128)
    ensures
        hash_of(planes, v) < pow2(planes.len()),
    decreases planes.len(),
{
    if planes.len() > 0 {
        lemma_hash_of_bound(planes.drop_last(), v);
        lemma_pow2_unfold(planes.len());
    } else {
        lemma2_to64();
    }
}

/// Hashes `v` under the hyperplane masks `planes`: bit `i` of the result is set when
/// `v & planes[i]` is non-zero.
pub fn hash(planes: &[HammingCode], v: HammingCode) -> (r: u32)
    requires
        planes@.len() <= 32,
    ensures
        r == hash_of(planes@, v),
        r < pow2(planes@.len()),
{
    let mut h: u32 = 0;
    let mut i: usize = 0;
    proof {
        lemma2_to64();
    }
    while i < planes.len()
        invariant
            i <= planes@.len() <= 32,
            h == hash_of(planes@.subrange(0, i as int), v),
            h < pow2(i as nat),
        decreases planes@.len() - i,
    {
        let ghost prefix = planes@.subrange(0, i as int + 1);
        assert(prefix.drop_last() == planes@.subrange(0, i as int));
        assert(prefix.last() == planes@[i as int]);
        if v & planes[i] != 0 {
            let s: u32 = i as u32;
            proof {
                lemma_u32_pow2_no_overflow(s as nat);
                lemma_u32_shl_is_mul(1u32, s);
                assert(h < (1u32 << s) && s < 32 ==> h | (1u32 << s) == h + (1u32 << s))
                    by (bit_vector);
            }
            h = h | (1u32 << s);
        }
        proof {
            lemma_pow2_unfold((i + 1) as nat);
        }
        i = i + 1;
    }
    assert(planes@.subrange(0, i as int) == planes@);
    h
}

} // verus!
