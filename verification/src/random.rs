//! The random draws of the structure search, made with `rand`'s thread-local generator.

use rand::rngs::ThreadRng;
use rand::seq::SliceRandom;
use rand::Rng;
use vstd::prelude::*;

verus! {

/// `rand`'s thread-local generator.
#[verifier::external_type_specification]
#[verifier::external_body]
pub struct ExThreadRng(ThreadRng);

/// `Rng::gen_range(0..n)`: a number below `n`; `rand` panics on an empty range, so `n`
/// must be positive. Which number comes out is left to the generator.
#[verifier::external_body]
pub(crate) fn random_below(rng: &mut ThreadRng, n: usize) -> (r: usize)
    requires
        n > 0,
    ensures
        r < n,
{
    rng.gen_range(0..n)
}

/// `Rng::gen_range(lo..=hi)`: a number from `lo` to `hi`; `rand` panics when `lo > hi`.
#[verifier::external_body]
pub(crate) fn random_between(rng: &mut ThreadRng, lo: usize, hi: usize) -> (r: usize)
    requires
        lo <= hi,
    ensures
        lo <= r <= hi,
{
    rng.gen_range(lo..=hi)
}

/// `Rng::gen_ratio(numerator, denominator)`: `true` with that probability; `rand`
/// documents that `0` is never and `denominator` always true, and panics when the
/// denominator is 0 or below the numerator.
#[verifier::external_body]
pub(crate) fn chance(rng: &mut ThreadRng, numerator: u32, denominator: u32) -> (r: bool)
    requires
        0 < denominator,
        numerator <= denominator,
    ensures
        numerator == 0 ==> !r,
        numerator == denominator ==> r,
{
    rng.gen_ratio(numerator, denominator)
}

/// `SliceRandom::shuffle`: the entries in a random order (a series of swaps, so the
/// same entries, each as often as before). Which order comes out is left to the generator.
#[verifier::external_body]
pub(crate) fn shuffle_entries(v: &mut Vec<(String, bool)>, rng: &mut ThreadRng)
    ensures
        final(v)@.len() == old(v)@.len(),
        final(v)@.to_multiset() == old(v)@.to_multiset(),
{
    v.shuffle(rng)
}

} // verus!
