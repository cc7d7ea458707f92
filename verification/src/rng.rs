//! Trusted boundary to the system's random number generator.
//!
//! Everything random in the engine — the opening storm sector, the shuffle
//! of a deck or of the play order — goes through the two wrappers here.
//! Their contracts state only what holds of every possible outcome; no
//! caller can assume anything about which value comes back.

use vstd::prelude::*;

use rand::seq::SliceRandom;

verus! {

/// Relies on rand::random_range over `0..n`: the sample lies in the range.
#[verifier::external_body]
pub(crate) fn rand_below(n: u64) -> (r: u64)
    requires
        n > 0,
    ensures
        r < n,
{
    rand::random_range(0..n)
}

/// Relies on rand::seq::SliceRandom::shuffle: an in-place permutation of
/// the slice, so the elements are rearranged but none is added or lost.
#[verifier::external_body]
pub(crate) fn shuffle<T>(v: &mut Vec<T>)
    ensures
        final(v)@.to_multiset() == old(v)@.to_multiset(),
        final(v)@.len() == old(v)@.len(),
{
    v.shuffle(&mut rand::rng());
}

} // verus!
