use rand::seq::SliceRandom;
use vstd::prelude::*;
use vstd::seq_lib::group_to_multiset_ensures;

verus! {

/// Relies on rand's `SliceRandom::shuffle` (driven by `rand::thread_rng`): it reorders the
/// slice in place by swaps, so the same elements remain, each as often as before.
#[verifier::external_body]
fn shuffle(v: &mut Vec<u32>)
    ensures
        final(v)@.to_multiset() == old(v)@.to_multiset(),
{
    v.shuffle(&mut rand::thread_rng());
}

/// Returns the 128 bit positions `0..128` in a random order.
pub fn shuffled_positions() -> (r: Vec<u32>)
    ensures
        r@.len() == 128,
        r@.no_duplicates(),
        forall|i: int| 0 <= i < 128 ==> #[trigger] r@[i] < 128,
{
    let mut b: Vec<u32> = Vec::new();
    for p in 0..128u32
        invariant
            b@.len() == p,
            forall|i: int| 0 <= i < p ==> #[trigger] b@[i] == i,
    {
        b.push(p);
    }
    let ghost before = b@;
    assert(before.no_duplicates());
    shuffle(&mut b);
    proof {
        broadcast use group_to_multiset_ensures;

        assert(b@.len() == b@.to_multiset().len());
        assert(before.len() == before.to_multiset().len());
        before.lemma_multiset_has_no_duplicates();
        b@.lemma_multiset_has_no_duplicates_conv();
        assert forall|i: int| 0 <= i < 128 implies #[trigger] b@[i] < 128 by {
            assert(b@.contains(b@[i]));
            assert(b@.to_multiset().count(b@[i]) > 0);
            assert(before.contains(b@[i]));
        }
    }
    b
}

} // verus!
