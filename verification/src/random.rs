//! The random number generator of the fuzzer and the calls made on it.
//!
//! Every item in this file is trusted: its contract is taken from the
//! source of the `rand` crate and is not proved.

use rand::distributions::WeightedIndex;
use rand::prelude::Distribution;
use rand::rngs::{OsRng, SmallRng};
use rand::{Rng, SeedableRng};
use vstd::prelude::*;

verus! {

/// The small, fast generator of `rand` (Xoshiro256++ on 64-bit targets).
/// Its state is opaque to the verifier.
#[verifier::external_type_specification]
#[verifier::external_body]
pub struct ExSmallRng(SmallRng);

/// A sum of weights, as `WeightedIndex::new` accumulates it.
pub open spec fn weight_sum(weights: Seq<u64>) -> nat
    decreases weights.len(),
{
    if weights.len() == 0 {
        0
    } else {
        weight_sum(weights.drop_last()) + weights.last() as nat
    }
}

/// The error type of `rand`, which a failed draw of seed bytes returns.
#[verifier::external_type_specification]
#[verifier::external_body]
pub struct ExRandError(rand::Error);

/// Calls `SeedableRng::from_rng` for `SmallRng` with the operating
/// system's generator `OsRng`: a generator seeded with bytes from the
/// operating system, or the error that `getrandom` reported. Nothing is
/// claimed of either outcome: both rest on the operating system.
#[verifier::external_body]
pub(crate) fn small_rng_from_os() -> (r: Result<SmallRng, rand::Error>) {
    SmallRng::from_rng(OsRng)
}

/// The generator that `SmallRng::seed_from_u64` builds from `seed`.
pub uninterp spec fn seeded_small_rng(seed: u64) -> SmallRng;

/// Calls `SeedableRng::seed_from_u64` for `SmallRng`. The source expands
/// the seed with a fixed PCG32 sequence into the generator's state, so the
/// generator depends on the seed alone: the same seed gives the same
/// generator. The state itself is opaque here.
#[verifier::external_body]
pub(crate) fn small_rng_seed_from_u64(seed: u64) -> (rng: SmallRng)
    ensures
        rng == seeded_small_rng(seed),
{
    SmallRng::seed_from_u64(seed)
}

/// Calls `Rng::gen_range` with the inclusive range `low..=high` on `usize`.
/// The source asserts that the range is not empty and returns
/// `low.wrapping_add(hi)` with `hi` below the width of the range, so the
/// value lies in the range. Which value comes out rests on the generator.
#[verifier::external_body]
pub(crate) fn gen_range_inclusive(rng: &mut SmallRng, low: usize, high: usize) -> (r: usize)
    requires
        low <= high,
    ensures
        low <= r <= high,
{
    rng.gen_range(low..=high)
}

/// Calls `Rng::gen::<u8>`, which draws any byte; nothing more is claimed.
#[verifier::external_body]
pub(crate) fn gen_byte(rng: &mut SmallRng) -> (b: u8) {
    rng.gen::<u8>()
}

/// Calls `Rng::gen_ratio(numerator, denominator)`: `true` with probability
/// `numerator / denominator`. The source panics unless
/// `0 < denominator` and `numerator <= denominator`; it always returns
/// `true` when the two are equal and always `false` when `numerator` is 0.
#[verifier::external_body]
pub(crate) fn gen_ratio(rng: &mut SmallRng, numerator: u32, denominator: u32) -> (b: bool)
    requires
        0 < denominator,
        numerator <= denominator,
    ensures
        numerator == denominator ==> b,
        numerator == 0 ==> !b,
{
    rng.gen_ratio(numerator, denominator)
}

/// Builds a `WeightedIndex` over `weights` with `WeightedIndex::new` and
/// draws one index from it with `Distribution::sample`. `new` fails when
/// there is no weight or all are zero, and overflows when the sum does not
/// fit in a `u64`: the precondition excludes both. The sample is the
/// partition point of the cumulative weights below a uniform draw in
/// `0..total`, so it is a valid index whose weight is not zero.
#[verifier::external_body]
pub(crate) fn weighted_sample(rng: &mut SmallRng, weights: &Vec<u64>) -> (idx: usize)
    requires
        weights.len() > 0,
        0 < weight_sum(weights@) <= u64::MAX,
    ensures
        idx < weights.len(),
        weights@[idx as int] > 0,
{
    let dist = WeightedIndex::new(weights).expect("non-empty weights with a positive sum");
    dist.sample(rng)
}

} // verus!
