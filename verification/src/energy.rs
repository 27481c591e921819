//! The total-energy double-counting identity.
//!
//! The Hamiltonian engine computes the total lattice energy as half the sum
//! of per-site local energies. This module proves the identity that makes
//! the half exact: on a well-formed lattice with a symmetric rule set and
//! no self-bonds, summing any symmetric bond weight over every site's
//! neighbor list counts each unordered bond exactly twice, so the half-sum
//! equals the direct sum over bonds. The exchange weight
//! `-J (s_i · s_j)` is symmetric in its endpoints, so the identity applies
//! to it pointwise, whatever numeric values the caller's spins take.

use vstd::prelude::*;
use crate::lattice::{Lattice, NeighborEntry};
use crate::symmetry::{has_edge, rules_symmetric};

verus! {

/// The sum of `f` over `[0, n)`.
pub open spec fn sum_range(n: int, f: spec_fn(int) -> int) -> int
    decreases n,
{
    if n <= 0 {
        0
    } else {
        sum_range(n - 1, f) + f(n - 1)
    }
}

/// The sum of `f` over `(i, k)`.
pub open spec fn sum_above(i: int, k: int, f: spec_fn(int) -> int) -> int
    decreases k - i,
{
    if k <= i + 1 {
        0
    } else {
        sum_above(i, k - 1, f) + f(k - 1)
    }
}

/// The sum of a bond weight over one site's neighbor list.
pub open spec fn wsum(s: Seq<NeighborEntry>, i: int, w: spec_fn(int, int, u64) -> int) -> int
    decreases s.len(),
{
    if s.len() == 0 {
        0
    } else {
        wsum(s.drop_last(), i, w) + w(i, s.last().site as int, s.last().strength)
    }
}

/// The part of that sum whose entries target site `j`.
pub open spec fn wsum_to(
    s: Seq<NeighborEntry>,
    i: int,
    j: int,
    w: spec_fn(int, int, u64) -> int,
) -> int
    decreases s.len(),
{
    if s.len() == 0 {
        0
    } else {
        wsum_to(s.drop_last(), i, j, w) + if s.last().site as int == j {
            w(i, j, s.last().strength)
        } else {
            0
        }
    }
}

/// Sums of pointwise-equal functions are equal.
proof fn lemma_sum_range_ext(n: int, f: spec_fn(int) -> int, g: spec_fn(int) -> int)
    requires
        forall|j: int| 0 <= j < n ==> #[trigger] f(j) == g(j),
    ensures
        sum_range(n, f) == sum_range(n, g),
    decreases n,
{
    if n > 0 {
        lemma_sum_range_ext(n - 1, f, g);
    }
}

/// A pointwise sum of functions sums to the sum of their sums.
proof fn lemma_sum_range_add(
    n: int,
    f: spec_fn(int) -> int,
    g: spec_fn(int) -> int,
    h: spec_fn(int) -> int,
)
    requires
        forall|j: int| 0 <= j < n ==> #[trigger] h(j) == f(j) + g(j),
    ensures
        sum_range(n, h) == sum_range(n, f) + sum_range(n, g),
    decreases n,
{
    if n > 0 {
        lemma_sum_range_add(n - 1, f, g, h);
    }
}

/// The sum of a function supported on one point is its value there.
proof fn lemma_sum_range_point(n: int, t: int, c: int, f: spec_fn(int) -> int)
    requires
        0 <= t < n,
        forall|j: int| 0 <= j < n ==> #[trigger] f(j) == (if j == t {
            c
        } else {
            0
        }),
    ensures
        sum_range(n, f) == c,
    decreases n,
{
    if t == n - 1 {
        lemma_sum_range_zero(n - 1, f);
    } else {
        lemma_sum_range_point(n - 1, t, c, f);
    }
}

/// The sum of the zero function is zero.
proof fn lemma_sum_range_zero(n: int, f: spec_fn(int) -> int)
    requires
        forall|j: int| 0 <= j < n ==> #[trigger] f(j) == 0,
    ensures
        sum_range(n, f) == 0,
    decreases n,
{
    if n > 0 {
        lemma_sum_range_zero(n - 1, f);
    }
}

/// A range sum splits at an interior point.
proof fn lemma_sum_range_split(n: int, i: int, f: spec_fn(int) -> int)
    requires
        0 <= i < n,
    ensures
        sum_range(n, f) == sum_range(i, f) + f(i) + sum_above(i, n, f),
    decreases n,
{
    if n == i + 1 {
    } else {
        lemma_sum_range_split(n - 1, i, f);
    }
}

/// Grouping a neighbor-list sum by target site recovers it.
proof fn lemma_wsum_by_target(
    s: Seq<NeighborEntry>,
    i: int,
    size: int,
    w: spec_fn(int, int, u64) -> int,
)
    requires
        forall|n: int| 0 <= n < s.len() ==> (#[trigger] s[n]).site < size,
    ensures
        sum_range(size, |j: int| wsum_to(s, i, j, w)) == wsum(s, i, w),
    decreases s.len(),
{
    if s.len() == 0 {
        lemma_sum_range_zero(size, |j: int| wsum_to(s, i, j, w));
    } else {
        let s0 = s.drop_last();
        assert forall|n: int| 0 <= n < s0.len() implies (#[trigger] s0[n]).site < size by {
            assert(s0[n] == s[n]);
        }
        lemma_wsum_by_target(s0, i, size, w);
        let t = s.last().site as int;
        let c = w(i, t, s.last().strength);
        lemma_sum_range_point(size, t, c, |j: int| if j == t { c } else { 0 });
        lemma_sum_range_add(
            size,
            |j: int| wsum_to(s0, i, j, w),
            |j: int| if j == t { c } else { 0 },
            |j: int| wsum_to(s, i, j, w),
        );
    }
}

/// With distinct targets, the part of the sum going to `j` is the weight of
/// the unique entry targeting `j`.
proof fn lemma_wsum_to_found(
    s: Seq<NeighborEntry>,
    i: int,
    j: int,
    w: spec_fn(int, int, u64) -> int,
    n: int,
)
    requires
        crate::lattice::distinct_sites(s),
        0 <= n < s.len(),
        s[n].site as int == j,
    ensures
        wsum_to(s, i, j, w) == w(i, j, s[n].strength),
    decreases s.len(),
{
    let s0 = s.drop_last();
    if n == s.len() - 1 {
        assert forall|m: int| 0 <= m < s0.len() implies (#[trigger] s0[m]).site as int != j by {
            assert(s0[m] == s[m]);
            assert(s[m].site != s[n].site);
        }
        lemma_wsum_to_absent(s0, i, j, w);
    } else {
        assert(s0[n] == s[n]);
        assert(crate::lattice::distinct_sites(s0)) by {
            assert forall|p: int, q: int| 0 <= p < q < s0.len() implies s0[p].site != s0[
                q].site by {
                assert(s0[p] == s[p] && s0[q] == s[q]);
            }
        }
        lemma_wsum_to_found(s0, i, j, w, n);
        assert(s.last().site != s[n].site);
    }
}

/// No entry targets `j`, so nothing is summed toward it.
proof fn lemma_wsum_to_absent(
    s: Seq<NeighborEntry>,
    i: int,
    j: int,
    w: spec_fn(int, int, u64) -> int,
)
    requires
        forall|m: int| 0 <= m < s.len() ==> (#[trigger] s[m]).site as int != j,
    ensures
        wsum_to(s, i, j, w) == 0,
    decreases s.len(),
{
    if s.len() > 0 {
        let s0 = s.drop_last();
        assert forall|m: int| 0 <= m < s0.len() implies (#[trigger] s0[m]).site as int != j by {
            assert(s0[m] == s[m]);
        }
        lemma_wsum_to_absent(s0, i, j, w);
        assert(s.last() == s[s.len() - 1]);
    }
}

/// The per-target weight between two sites is symmetric: it is the coupling
/// weight of the unique bond between them seen from either end, or zero
/// from both.
proof fn lemma_target_weight_symmetric(
    lat: &Lattice,
    w: spec_fn(int, int, u64) -> int,
    a: int,
    b: int,
)
    requires
        lat.wf(),
        rules_symmetric(lat.rules@),
        forall|i: int, j: int, st: u64| #[trigger] w(i, j, st) == w(j, i, st),
        0 <= a < lat.size,
        0 <= b < lat.size,
    ensures
        wsum_to(lat.neighbors@[a]@, a, b, w) == wsum_to(lat.neighbors@[b]@, b, a, w),
{
    let sa = lat.neighbors@[a]@;
    let sb = lat.neighbors@[b]@;
    if exists|n: int| 0 <= n < sa.len() && (#[trigger] sa[n]).site as int == b {
        let n = choose|n: int| 0 <= n < sa.len() && (#[trigger] sa[n]).site as int == b;
        let st = sa[n].strength;
        assert(has_edge(lat, a, b, st));
        lat.lemma_edge_symmetry(a, b, st);
        let m = choose|m: int|
            0 <= m < sb.len() && (#[trigger] sb[m]).site as int == a && sb[m].strength == st;
        lemma_wsum_to_found(sa, a, b, w, n);
        lemma_wsum_to_found(sb, b, a, w, m);
    } else {
        lemma_wsum_to_absent(sa, a, b, w);
        if exists|m: int| 0 <= m < sb.len() && (#[trigger] sb[m]).site as int == a {
            let m = choose|m: int| 0 <= m < sb.len() && (#[trigger] sb[m]).site as int == a;
            assert(has_edge(lat, b, a, sb[m].strength));
            lat.lemma_edge_symmetry(b, a, sb[m].strength);
            assert(false);
        }
        lemma_wsum_to_absent(sb, b, a, w);
    }
}

/// The per-target weight from a site to itself, with no self-bonds.
proof fn lemma_no_self_weight(lat: &Lattice, w: spec_fn(int, int, u64) -> int, i: int)
    requires
        lat.wf(),
        0 <= i < lat.size,
        forall|n: int|
            0 <= n < lat.neighbors@[i]@.len() ==> (#[trigger] lat.neighbors@[i]@[n]).site as int
                != i,
    ensures
        wsum_to(lat.neighbors@[i]@, i, i, w) == 0,
{
    lemma_wsum_to_absent(lat.neighbors@[i]@, i, i, w);
}

/// The strict lower-triangle row of site `i`: bonds to lower-indexed sites.
pub open spec fn lower_row(lat: &Lattice, w: spec_fn(int, int, u64) -> int, i: int) -> int {
    sum_range(i, |j: int| wsum_to(lat.neighbors@[i]@, i, j, w))
}

/// The strict upper part of site `i`'s row within `[0, k)`.
pub open spec fn upper_row(lat: &Lattice, w: spec_fn(int, int, u64) -> int, i: int, k: int)
    -> int {
    sum_above(i, k, |j: int| wsum_to(lat.neighbors@[i]@, i, j, w))
}

/// The weighted sum over every neighbor list of the first `k` sites.
pub open spec fn lattice_wsum(lat: &Lattice, w: spec_fn(int, int, u64) -> int, k: int) -> int {
    sum_range(k, |i: int| wsum(lat.neighbors@[i]@, i, w))
}

/// The direct sum over unordered bonds among the first `k` sites: each bond
/// is counted once, at its lower-indexed endpoint.
pub open spec fn bond_wsum(lat: &Lattice, w: spec_fn(int, int, u64) -> int, k: int) -> int {
    sum_range(k, |i: int| upper_row(lat, w, i, k))
}

/// The two triangles of the weight matrix carry equal sums.
proof fn lemma_triangles_equal(lat: &Lattice, w: spec_fn(int, int, u64) -> int, k: int)
    requires
        lat.wf(),
        rules_symmetric(lat.rules@),
        forall|i: int, j: int, st: u64| #[trigger] w(i, j, st) == w(j, i, st),
        0 <= k <= lat.size,
    ensures
        sum_range(k, |i: int| lower_row(lat, w, i)) == sum_range(
            k,
            |i: int| upper_row(lat, w, i, k),
        ),
    decreases k,
{
    if k > 0 {
        lemma_triangles_equal(lat, w, k - 1);
        // The new row below the diagonal equals, entry for entry, the new
        // column right of it.
        assert forall|j: int| 0 <= j < k - 1 implies #[trigger] wsum_to(
            lat.neighbors@[k - 1]@,
            k - 1,
            j,
            w,
        ) == wsum_to(lat.neighbors@[j]@, j, k - 1, w) by {
            lemma_target_weight_symmetric(lat, w, k - 1, j);
        }
        lemma_sum_range_ext(
            k - 1,
            |j: int| wsum_to(lat.neighbors@[k - 1]@, k - 1, j, w),
            |j: int| wsum_to(lat.neighbors@[j]@, j, k - 1, w),
        );
        // Extending the square from k-1 to k adds the new column to every
        // earlier row.
        assert forall|i: int| 0 <= i < k - 1 implies #[trigger] upper_row(lat, w, i, k)
            == upper_row(lat, w, i, k - 1) + wsum_to(lat.neighbors@[i]@, i, k - 1, w) by {
        }
        lemma_sum_range_add(
            k - 1,
            |i: int| upper_row(lat, w, i, k - 1),
            |i: int| wsum_to(lat.neighbors@[i]@, i, k - 1, w),
            |i: int| upper_row(lat, w, i, k),
        );
        assert(upper_row(lat, w, k - 1, k) == 0);
        assert(sum_range(k, |i: int| upper_row(lat, w, i, k)) == sum_range(
            k - 1,
            |i: int| upper_row(lat, w, i, k),
        ) + upper_row(lat, w, k - 1, k));
        assert(sum_range(k, |i: int| lower_row(lat, w, i)) == sum_range(
            k - 1,
            |i: int| lower_row(lat, w, i),
        ) + lower_row(lat, w, k - 1));
    }
}

impl Lattice {
    /// Summing a symmetric bond weight over every site's neighbor list
    /// counts each unordered bond exactly twice: the per-site half-sum
    /// equals the direct sum over bonds.
    ///
    /// The exchange energy instantiates the weight with
    /// `-J (s_i · s_j)`, which is symmetric in its endpoints, so the total
    /// lattice energy — half the per-site sum — is the double-loop sum over
    /// all bonds.
    pub proof fn lemma_double_counting(&self, w: spec_fn(int, int, u64) -> int)
        requires
            self.wf(),
            rules_symmetric(self.rules@),
            forall|i: int, j: int, st: u64| #[trigger] w(i, j, st) == w(j, i, st),
            forall|i: int, n: int|
                0 <= i < self.size && 0 <= n < self.neighbors@[i]@.len() ==> (
                #[trigger] self.neighbors@[i]@[n]).site as int != i,
        ensures
            lattice_wsum(self, w, self.size as int) == 2 * bond_wsum(self, w, self.size as int),
    {
        let size = self.size as int;
        // Each site's list sum splits into lower row, diagonal and upper row.
        assert forall|i: int| 0 <= i < size implies #[trigger] wsum(self.neighbors@[i]@, i, w)
            == lower_row(self, w, i) + upper_row(self, w, i, size) by {
            let row = |j: int| wsum_to(self.neighbors@[i]@, i, j, w);
            assert forall|n: int| 0 <= n < self.neighbors@[i]@.len() implies (
            #[trigger] self.neighbors@[i]@[n]).site < size by {}
            lemma_wsum_by_target(self.neighbors@[i]@, i, size, w);
            lemma_sum_range_split(size, i, row);
            lemma_no_self_weight(self, w, i);
        }
        lemma_sum_range_add(
            size,
            |i: int| lower_row(self, w, i),
            |i: int| upper_row(self, w, i, size),
            |i: int| wsum(self.neighbors@[i]@, i, w),
        );
        lemma_triangles_equal(self, w, size);
    }
}

} // verus!
