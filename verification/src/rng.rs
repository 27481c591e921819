//! Random site selection for the Monte Carlo updates.
//!
//! Each run owns one independently seeded permuted-congruential generator;
//! the update algorithms draw uniform site indices from it.

use vstd::prelude::*;

verus! {

/// The permuted-congruential generator state that drives a run's updates.
#[verifier::external_type_specification]
#[verifier::external_body]
pub struct ExPcg64Mcg(rand_pcg::Mcg128Xsl64);

/// Relies on rand's `RngExt::random_range` over `0..n`: it panics only when
/// the range is empty and returns a value of the range.
#[verifier::external_body]
pub(crate) fn random_index(rng: &mut rand_pcg::Pcg64Mcg, n: usize) -> (r: usize)
    requires
        n >= 1,
    ensures
        r < n,
{
    rand::RngExt::random_range(rng, 0..n)
}

} // verus!
