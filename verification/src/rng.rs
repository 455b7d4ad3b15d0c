//! The library's source of randomness: a seedable generator passed
//! explicitly into weight initialisation and epoch shuffling, so that
//! training runs can be reproduced.

use vstd::prelude::*;

use crate::fixed::SCALE;
use rand::rngs::StdRng;
use rand::seq::SliceRandom;
use rand::Rng;
use rand::SeedableRng;

verus! {

#[verifier::external_type_specification]
#[verifier::external_body]
pub struct ExStdRng(StdRng);

/// Relies on rand's SeedableRng::seed_from_u64: builds a generator
/// deterministically from a 64-bit seed.
#[verifier::external_body]
fn rng_from_seed(seed: u64) -> (r: StdRng) {
    StdRng::seed_from_u64(seed)
}

/// Relies on rand's Rng::gen_range: a sample drawn from a non-empty
/// inclusive range lies within that range.
#[verifier::external_body]
pub(crate) fn rng_unit(rng: &mut StdRng) -> (r: i64)
    ensures
        -(SCALE as int) <= r as int <= SCALE as int,
{
    rng.gen_range(-SCALE..=SCALE)
}

/// Relies on rand's SliceRandom::shuffle: the slice is permuted in
/// place, so it holds the same elements with the same multiplicities.
#[verifier::external_body]
pub(crate) fn shuffle_indices(rng: &mut StdRng, v: &mut Vec<usize>)
    ensures
        final(v)@.len() == old(v)@.len(),
        final(v)@.to_multiset() == old(v)@.to_multiset(),
{
    v.as_mut_slice().shuffle(rng);
}

/// A deterministic random source from a seed.
pub fn seeded_rng(seed: u64) -> StdRng {
    rng_from_seed(seed)
}

} // verus!
