//! The local Metropolis update.
//!
//! One step proposes a new orientation for a single site drawn uniformly at
//! random. The energy difference is local — it is evaluated only over the
//! site's neighbor list — and the acceptance test on it is numeric work on
//! the spin values the caller holds. The caller applies the decision
//! through [`crate::spins::SpinArray::metropolis_apply`], which changes the
//! chosen site on acceptance and nothing at all on rejection.

use vstd::prelude::*;
use crate::lattice::Lattice;

verus! {

/// Draws the site a Metropolis step proposes to update, uniformly at
/// random.
pub fn metropolis_site(lat: &Lattice, rng: &mut rand_pcg::Pcg64Mcg) -> (site: usize)
    requires
        lat.wf(),
        lat.size >= 1,
    ensures
        site < lat.size,
{
    crate::rng::random_index(rng, lat.size)
}

} // verus!
