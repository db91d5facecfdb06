use vstd::prelude::*;

verus! {

/// A fixed-width binary fingerprint.
pub type HammingCode = u128;

/// Whether bit `p` of `x` is set.
pub open spec fn bit_set(x: u128, p: u128) -> bool {
    x & (1u128 << p) != 0
}

/// The number of set bits of `x` among positions `0..n`.
pub open spec fn ones_below(x: u128, n: nat) -> nat
    decreases n,
{
    if n == 0 {
        0
    } else {
        ones_below(x, (n - 1) as nat) + if bit_set(x, (n - 1) as u128) { 1nat } else { 0nat }
    }
}

/// The number of set bits of `x`.
pub open spec fn popcount(x: u128) -> nat {
    ones_below(x, 128)
}

/// The Hamming distance between two codes: the number of bit positions where they differ.
pub open spec fn distance(a: u128, b: u128) -> nat {
    popcount(a ^ b)
}

/// Returns the number of bit positions on which `a` and `b` differ.
pub fn hamming_distance(a: HammingCode, b: HammingCode) -> (r: u32)
    ensures
        r == distance(a, b),
        r <= 128,
{
    let x: u128 = a ^ b;
    let mut count: u32 = 0;
    for i in 0..128u32
        invariant
            count == ones_below(x, i as nat),
            count <= i,
    {
        if x & (1u128 << i) != 0 {
            count = count + 1;
        }
    }
    count
}

proof fn lemma_ones_below_bound(x: u128, n: nat)
    ensures
        ones_below(x, n) <= n,
    decreases n,
{
    if n > 0 {
        lemma_ones_below_bound(x, (n - 1) as nat);
    }
}

/// No bit of zero is set.
pub proof fn lemma_ones_below_zero(n: nat)
    ensures
        ones_below(0u128, n) == 0,
    decreases n,
{
    if n > 0 {
        let q = (n - 1) as u128;
        assert(0u128 & (1u128 << q) == 0) by (bit_vector);
        lemma_ones_below_zero((n - 1) as nat);
    }
}

/// Flipping a clear bit at position `p < 128` adds one to the count of set bits below any
/// `n > p`, and leaves the counts below `n <= p` alone.
pub proof fn lemma_flip_clear_bit(x: u128, p: u128, n: nat)
    requires
        p < 128,
        n <= 128,
        !bit_set(x, p),
    ensures
        ones_below(x ^ (1u128 << p), n) == ones_below(x, n) + if p < n { 1nat } else { 0nat },
    decreases n,
{
    if n > 0 {
        let q = (n - 1) as u128;
        lemma_flip_clear_bit(x, p, (n - 1) as nat);
        assert(q < 128);
        if q == p {
            assert(p < 128 && x & (1u128 << p) == 0 ==> (x ^ (1u128 << p)) & (1u128 << p) != 0)
                by (bit_vector);
        } else {
            assert(q != p && q < 128 && p < 128 ==> (((x ^ (1u128 << p)) & (1u128 << q) != 0)
                == (x & (1u128 << q) != 0))) by (bit_vector);
        }
    }
}

/// The distance is symmetric, zero from a code to itself, and at most 128.
pub proof fn lemma_distance_metric(a: HammingCode, b: HammingCode)
    ensures
        distance(a, b) == distance(b, a),
        distance(a, a) == 0,
        distance(a, b) <= 128,
{
    assert(a ^ b == b ^ a) by (bit_vector);
    assert(a ^ a == 0) by (bit_vector);
    lemma_ones_below_zero(128);
    lemma_ones_below_bound(a ^ b, 128);
}

} // verus!
