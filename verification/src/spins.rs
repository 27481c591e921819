//! The spin array: one orientation value per site, indexed by the lattice's
//! dense site indices.
//!
//! The array is generic over the orientation type, so each spin-state
//! variant supplies its own representation; the update algorithms here only
//! move orientations, and state exactly which sites change.

use vstd::prelude::*;
use crate::lattice::Lattice;
use crate::topology::{coord_in_range, lemma_lin_index_decode, lin_index};

verus! {

/// Whether `j` occurs among the indices of `sites`.
pub open spec fn contains_index(sites: Seq<usize>, j: int) -> bool {
    exists|k: int| 0 <= k < sites.len() && sites[k] as int == j
}

/// No index occurs twice.
pub open spec fn distinct_indices(sites: Seq<usize>) -> bool {
    forall|p: int, q: int| 0 <= p < q < sites.len() ==> sites[p] != sites[q]
}

/// One orientation value per site.
pub struct SpinArray<S> {
    pub spins: Vec<S>,
}

impl<S: Copy> SpinArray<S> {
    /// Wraps a caller-initialized orientation vector.
    pub fn from_vec(spins: Vec<S>) -> (r: SpinArray<S>)
        ensures
            r.spins@ == spins@,
    {
        SpinArray { spins }
    }

    /// The number of sites.
    pub fn len(&self) -> (n: usize)
        ensures
            n == self.spins@.len(),
    {
        self.spins.len()
    }

    /// The orientation of one site.
    pub fn get(&self, i: usize) -> (s: &S)
        requires
            i < self.spins@.len(),
        ensures
            *s == self.spins@[i as int],
    {
        &self.spins[i]
    }

    /// Overwrites the orientation of one site.
    pub fn set(&mut self, i: usize, s: S)
        requires
            i < old(self).spins@.len(),
        ensures
            final(self).spins@ == old(self).spins@.update(i as int, s),
    {
        self.spins.set(i, s);
    }

    /// The spin at a sublattice and cell coordinate, or nothing when the
    /// coordinate lies outside the cell.
    pub fn get_spin_by_coord(&self, lat: &Lattice, sub: usize, x: isize, y: isize, z: isize) -> (r:
        Option<&S>)
        requires
            lat.wf(),
            self.spins@.len() == lat.size,
        ensures
            match r {
                Some(s) => coord_in_range(
                    sub as int,
                    x as int,
                    y as int,
                    z as int,
                    lat.dim@[0] as int,
                    lat.dim@[1] as int,
                    lat.dim@[2] as int,
                    lat.sublattices as int,
                ) && *s == self.spins@[lin_index(
                    sub as int,
                    x as int,
                    y as int,
                    z as int,
                    lat.dim@[0] as int,
                    lat.dim@[1] as int,
                    lat.dim@[2] as int,
                )],
                None => !coord_in_range(
                    sub as int,
                    x as int,
                    y as int,
                    z as int,
                    lat.dim@[0] as int,
                    lat.dim@[1] as int,
                    lat.dim@[2] as int,
                    lat.sublattices as int,
                ),
            },
    {
        if sub >= lat.sublattices || x < 0 || y < 0 || z < 0 {
            return None;
        }
        let d0 = lat.dim[0];
        let d1 = lat.dim[1];
        let d2 = lat.dim[2];
        if x as usize >= d0 || y as usize >= d1 || z as usize >= d2 {
            return None;
        }
        proof {
            assert((sub + 1) * (lat.dim@[0] * lat.dim@[1] * lat.dim@[2]) <= lat.sublattices * (
            lat.dim@[0] * lat.dim@[1] * lat.dim@[2])) by (nonlinear_arith)
                requires
                    sub + 1 <= lat.sublattices,
                    1 <= lat.dim@[0],
                    1 <= lat.dim@[1],
                    1 <= lat.dim@[2],
            ;
            lemma_lin_index_decode(
                sub as int,
                x as int,
                y as int,
                z as int,
                d0 as int,
                d1 as int,
                d2 as int,
                lat.sublattices as int,
            );
        }
        let i = crate::topology::coord_to_index([x, y, z], sub, lat.dim);
        Some(&self.spins[i])
    }

    /// Applies one Metropolis decision: on acceptance the chosen site takes
    /// the proposed orientation; on rejection nothing changes. Returns the
    /// count of sites changed.
    pub fn metropolis_apply(&mut self, site: usize, proposal: S, accept: bool) -> (changed: usize)
        requires
            site < old(self).spins@.len(),
        ensures
            accept ==> final(self).spins@ == old(self).spins@.update(site as int, proposal)
                && changed == 1,
            !accept ==> final(self).spins@ == old(self).spins@ && changed == 0,
    {
        if accept {
            self.spins.set(site, proposal);
            1
        } else {
            0
        }
    }

    /// Reflects a whole cluster at once: each listed site takes its supplied
    /// flipped orientation, every other site is untouched. Returns the count
    /// of sites changed — the cluster size.
    pub fn apply_flips(&mut self, sites: &Vec<usize>, flipped: &Vec<S>) -> (changed: usize)
        requires
            distinct_indices(sites@),
            flipped@.len() == sites@.len(),
            forall|k: int|
                0 <= k < sites@.len() ==> (#[trigger] sites@[k]) < old(self).spins@.len(),
        ensures
            changed == sites@.len(),
            final(self).spins@.len() == old(self).spins@.len(),
            forall|k: int|
                0 <= k < sites@.len() ==> final(self).spins@[(#[trigger] sites@[k]) as int]
                    == flipped@[k],
            forall|j: int|
                0 <= j < old(self).spins@.len() && !contains_index(sites@, j)
                    ==> final(self).spins@[j] == old(self).spins@[j],
    {
        let n = sites.len();
        let mut k: usize = 0;
        while k < n
            invariant
                n == sites@.len(),
                k <= n,
                flipped@.len() == n,
                distinct_indices(sites@),
                forall|t: int| 0 <= t < n ==> (#[trigger] sites@[t]) < self.spins@.len(),
                self.spins@.len() == old(self).spins@.len(),
                forall|t: int|
                    0 <= t < k as int ==> self.spins@[(#[trigger] sites@[t]) as int]
                        == flipped@[t],
                forall|j: int|
                    0 <= j < self.spins@.len() && !contains_index(sites@.take(k as int), j)
                        ==> self.spins@[j] == old(self).spins@[j],
            decreases n - k,
        {
            let site = sites[k];
            self.spins.set(site, flipped[k]);
            proof {
                assert forall|t: int|
                    0 <= t < k as int + 1 implies self.spins@[(#[trigger] sites@[t]) as int]
                    == flipped@[t] by {
                    if t < k as int {
                        assert(sites@[t] != sites@[k as int]);
                    }
                }
                assert forall|j: int|
                    0 <= j < self.spins@.len() && !contains_index(sites@.take(k as int + 1), j)
                        implies self.spins@[j] == old(self).spins@[j] by {
                    assert(sites@.take(k as int + 1)[k as int] == sites@[k as int]);
                    assert(contains_index(sites@.take(k as int + 1), sites@[k as int] as int));
                    assert(j != sites@[k as int] as int);
                    assert forall|m: int|
                        0 <= m < sites@.take(k as int).len() implies sites@.take(
                        k as int,
                    )[m] as int != j by {
                        assert(sites@.take(k as int)[m] == sites@.take(k as int + 1)[m]);
                    }
                    assert(!contains_index(sites@.take(k as int), j));
                }
            }
            k = k + 1;
        }
        proof {
            assert(sites@.take(n as int) =~= sites@);
        }
        n
    }
}

} // verus!
