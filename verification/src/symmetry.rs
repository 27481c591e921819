//! Bond symmetry: the double-counting identity behind the total energy.
//!
//! The total lattice energy is half the sum of per-site local energies
//! because every bond is counted from both of its endpoints. That is a
//! property of the topology: for a symmetric rule set — one that contains,
//! for every rule offset, the reversed offset between the swapped
//! sublattices with the same coupling — every neighbor-list edge `i → j`
//! is matched by the edge `j → i` carrying the same coupling word. The
//! summed bond energy `-J (s_i · s_j)` is symmetric in its endpoints, so
//! each unordered bond contributes exactly twice to the site sums.

use vstd::prelude::*;
use crate::lattice::{
    offset_target, offsets_entries, rules_entries, site_entries, CellShape, ExchangeRule, Lattice,
    NeighborEntry,
};
use crate::topology::{
    coord_in_range, lemma_lin_index_decode, lin_index, site_sub, site_x, site_y, site_z,
    wrap_axis,
};

verus! {

broadcast use vstd::array::group_array_axioms;

/// `off2` is the reversal of `off`.
pub open spec fn offset_reversed(off: [isize; 3], off2: [isize; 3]) -> bool {
    &&& off2@[0] as int == -(off@[0] as int)
    &&& off2@[1] as int == -(off@[1] as int)
    &&& off2@[2] as int == -(off@[2] as int)
}

/// Rule offset `(r2, k2)` mirrors `(r, k)`: the reversed offset between the
/// swapped sublattice pair, with the same coupling word.
pub open spec fn mirrors(rules: Seq<ExchangeRule>, r: int, k: int, r2: int, k2: int) -> bool {
    &&& 0 <= r2 < rules.len()
    &&& 0 <= k2 < rules[r2].offsets@.len()
    &&& rules[r2].from_sub == rules[r].to_sub
    &&& rules[r2].to_sub == rules[r].from_sub
    &&& rules[r2].strength == rules[r].strength
    &&& offset_reversed(rules[r].offsets@[k], rules[r2].offsets@[k2])
}

/// Every rule offset has a mirror.
pub open spec fn rules_symmetric(rules: Seq<ExchangeRule>) -> bool {
    forall|r: int, k: int|
        #![trigger rules[r].offsets@[k]]
        0 <= r < rules.len() && 0 <= k < rules[r].offsets@.len() ==> exists|r2: int, k2: int|
            #[trigger] mirrors(rules, r, k, r2, k2)
}

/// The lattice has a directed bond from site `i` to site `j` with coupling
/// word `st`.
pub open spec fn has_edge(lat: &Lattice, i: int, j: int, st: u64) -> bool {
    &&& 0 <= i < lat.neighbors@.len()
    &&& exists|n: int|
        0 <= n < lat.neighbors@[i]@.len() && (#[trigger] lat.neighbors@[i]@[n]).site as int == j
            && lat.neighbors@[i]@[n].strength == st
}

/// Wrapping is reversible: if a step of `ox` from an in-range coordinate
/// `x` resolves to `w`, then a step of `-ox` from `w` resolves back to `x`.
proof fn lemma_wrap_axis_reverse(x: int, ox: int, d: int, p: bool)
    requires
        0 < d,
        0 <= x < d,
        wrap_axis(x + ox, d, p) is Some,
    ensures
        wrap_axis(wrap_axis(x + ox, d, p)->Some_0 - ox, d, p) == Some(x),
{
    let c = x + ox;
    if 0 <= c < d {
        assert(wrap_axis(c, d, p)->Some_0 == c);
    } else {
        let w = c % d;
        vstd::arithmetic::div_mod::lemma_fundamental_div_mod(c, d);
        vstd::arithmetic::div_mod::lemma_mod_bound(c, d);
        let q = c / d;
        assert(w - ox == (-q) * d + x) by (nonlinear_arith)
            requires
                c == d * q + w,
                c == x + ox,
        ;
        vstd::arithmetic::div_mod::lemma_fundamental_div_mod_converse_mod(w - ox, d, -q, x);
        if 0 <= w - ox < d {
            vstd::arithmetic::div_mod::lemma_small_mod((w - ox) as nat, d as nat);
        }
    }
}

/// Reversing a resolved offset step leads back to the source site.
proof fn lemma_offset_target_reverse(
    off: [isize; 3],
    off2: [isize; 3],
    a: int,
    b: int,
    x: int,
    y: int,
    z: int,
    c: CellShape,
)
    requires
        c.wf(),
        offset_reversed(off, off2),
        coord_in_range(a, x, y, z, c.d0, c.d1, c.d2, c.subs),
        0 <= b,
        offset_target(off, b, x, y, z, c) is Some,
    ensures
        ({
            let j = offset_target(off, b, x, y, z, c)->Some_0;
            &&& 0 <= j < c.total()
            &&& offset_target(
                off2,
                a,
                site_x(j, c.d0, c.d1, c.d2),
                site_y(j, c.d0, c.d1, c.d2),
                site_z(j, c.d0, c.d1, c.d2),
                c,
            ) == Some(lin_index(a, x, y, z, c.d0, c.d1, c.d2))
        }),
{
    let ox = off@[0] as int;
    let oy = off@[1] as int;
    let oz = off@[2] as int;
    let wx = wrap_axis(x + ox, c.d0, c.p0)->Some_0;
    let wy = wrap_axis(y + oy, c.d1, c.p1)->Some_0;
    let wz = wrap_axis(z + oz, c.d2, c.p2)->Some_0;
    vstd::arithmetic::div_mod::lemma_mod_bound(x + ox, c.d0);
    vstd::arithmetic::div_mod::lemma_mod_bound(y + oy, c.d1);
    vstd::arithmetic::div_mod::lemma_mod_bound(z + oz, c.d2);
    let j = lin_index(b, wx, wy, wz, c.d0, c.d1, c.d2);
    lemma_lin_index_decode(b, wx, wy, wz, c.d0, c.d1, c.d2, c.subs);
    lemma_wrap_axis_reverse(x, ox, c.d0, c.p0);
    lemma_wrap_axis_reverse(y, oy, c.d1, c.p1);
    lemma_wrap_axis_reverse(z, oz, c.d2, c.p2);
    assert(site_x(j, c.d0, c.d1, c.d2) + off2@[0] as int == wx - ox);
    assert(site_y(j, c.d0, c.d1, c.d2) + off2@[1] as int == wy - oy);
    assert(site_z(j, c.d0, c.d1, c.d2) + off2@[2] as int == wz - oz);
}

/// Every entry of an offset list's contribution has a source offset.
proof fn lemma_offsets_entry_source(
    offs: Seq<[isize; 3]>,
    to_sub: int,
    strength: u64,
    x: int,
    y: int,
    z: int,
    c: CellShape,
    n: int,
)
    requires
        c.wf(),
        0 <= to_sub,
        0 <= n < offsets_entries(offs, to_sub, strength, x, y, z, c).len(),
    ensures
        offsets_entries(offs, to_sub, strength, x, y, z, c)[n].strength == strength,
        exists|k: int|
            0 <= k < offs.len() && offset_target(#[trigger] offs[k], to_sub, x, y, z, c)
                == Some(
                offsets_entries(offs, to_sub, strength, x, y, z, c)[n].site as int,
            ),
    decreases offs.len(),
{
    let whole = offsets_entries(offs, to_sub, strength, x, y, z, c);
    let prefix = offsets_entries(offs.drop_last(), to_sub, strength, x, y, z, c);
    if n < prefix.len() {
        lemma_offsets_entry_source(offs.drop_last(), to_sub, strength, x, y, z, c, n);
        assert(whole[n] == prefix[n]);
        let k = choose|k: int|
            0 <= k < offs.drop_last().len() && offset_target(
                #[trigger] offs.drop_last()[k],
                to_sub,
                x,
                y,
                z,
                c,
            ) == Some(prefix[n].site as int);
        assert(offs[k] == offs.drop_last()[k]);
    } else {
        let t = offset_target(offs.last(), to_sub, x, y, z, c);
        assert(t is Some);
        assert(whole[n] == NeighborEntry { site: t->Some_0 as usize, strength });
        crate::topology::lemma_resolve_index_bound(
            x + offs.last()@[0],
            y + offs.last()@[1],
            z + offs.last()@[2],
            to_sub,
            c.d0,
            c.d1,
            c.d2,
            c.subs,
            c.p0,
            c.p1,
            c.p2,
        );
        assert(offs[offs.len() - 1] == offs.last());
        assert(offset_target(offs[offs.len() - 1], to_sub, x, y, z, c) == Some(
            whole[n].site as int,
        ));
    }
}

/// Every offset that resolves contributes an entry with its target.
proof fn lemma_offsets_source_entry(
    offs: Seq<[isize; 3]>,
    to_sub: int,
    strength: u64,
    x: int,
    y: int,
    z: int,
    c: CellShape,
    k: int,
)
    requires
        c.wf(),
        0 <= to_sub,
        0 <= k < offs.len(),
        offset_target(offs[k], to_sub, x, y, z, c) is Some,
    ensures
        exists|n: int|
            0 <= n < offsets_entries(offs, to_sub, strength, x, y, z, c).len() && (
            #[trigger] offsets_entries(offs, to_sub, strength, x, y, z, c)[n]).site as int
                == offset_target(offs[k], to_sub, x, y, z, c)->Some_0 && offsets_entries(
                offs,
                to_sub,
                strength,
                x,
                y,
                z,
                c,
            )[n].strength == strength,
    decreases offs.len(),
{
    let whole = offsets_entries(offs, to_sub, strength, x, y, z, c);
    let prefix = offsets_entries(offs.drop_last(), to_sub, strength, x, y, z, c);
    crate::topology::lemma_resolve_index_bound(
        x + offs[k]@[0],
        y + offs[k]@[1],
        z + offs[k]@[2],
        to_sub,
        c.d0,
        c.d1,
        c.d2,
        c.subs,
        c.p0,
        c.p1,
        c.p2,
    );
    if k == offs.len() - 1 {
        assert(whole[whole.len() - 1] == NeighborEntry {
            site: offset_target(offs[k], to_sub, x, y, z, c)->Some_0 as usize,
            strength,
        });
    } else {
        assert(offs.drop_last()[k] == offs[k]);
        lemma_offsets_source_entry(offs.drop_last(), to_sub, strength, x, y, z, c, k);
        let n = choose|n: int|
            0 <= n < prefix.len() && (#[trigger] prefix[n]).site as int == offset_target(
                offs[k],
                to_sub,
                x,
                y,
                z,
                c,
            )->Some_0 && prefix[n].strength == strength;
        assert(whole[n] == prefix[n]);
    }
}

/// Every entry of a rule list's contribution has a source rule and offset.
proof fn lemma_rules_entry_source(
    rules: Seq<ExchangeRule>,
    sub: int,
    x: int,
    y: int,
    z: int,
    c: CellShape,
    n: int,
)
    requires
        c.wf(),
        0 <= n < rules_entries(rules, sub, x, y, z, c).len(),
    ensures
        exists|r: int, k: int|
            #![trigger rules[r].offsets@[k]]
            0 <= r < rules.len() && rules[r].from_sub as int == sub && 0 <= k < rules[
                r].offsets@.len() && offset_target(
                rules[r].offsets@[k],
                rules[r].to_sub as int,
                x,
                y,
                z,
                c,
            ) == Some(rules_entries(rules, sub, x, y, z, c)[n].site as int) && rules[r].strength
                == rules_entries(rules, sub, x, y, z, c)[n].strength,
    decreases rules.len(),
{
    let whole = rules_entries(rules, sub, x, y, z, c);
    let prefix = rules_entries(rules.drop_last(), sub, x, y, z, c);
    if n < prefix.len() {
        lemma_rules_entry_source(rules.drop_last(), sub, x, y, z, c, n);
        assert(whole[n] == prefix[n]);
        let (r, k): (int, int) = choose|r: int, k: int|
            #![trigger rules.drop_last()[r].offsets@[k]]
            0 <= r < rules.drop_last().len() && rules.drop_last()[r].from_sub as int == sub && 0
                <= k < rules.drop_last()[r].offsets@.len() && offset_target(
                rules.drop_last()[r].offsets@[k],
                rules.drop_last()[r].to_sub as int,
                x,
                y,
                z,
                c,
            ) == Some(prefix[n].site as int) && rules.drop_last()[r].strength == prefix[
                n].strength;
        assert(rules[r] == rules.drop_last()[r]);
        assert(rules[r].offsets@[k] == rules.drop_last()[r].offsets@[k]);
    } else {
        let rule = rules.last();
        assert(rule.from_sub as int == sub);
        let m = n - prefix.len();
        lemma_offsets_entry_source(
            rule.offsets@,
            rule.to_sub as int,
            rule.strength,
            x,
            y,
            z,
            c,
            m,
        );
        let k = choose|k: int|
            0 <= k < rule.offsets@.len() && offset_target(
                #[trigger] rule.offsets@[k],
                rule.to_sub as int,
                x,
                y,
                z,
                c,
            ) == Some(
                offsets_entries(rule.offsets@, rule.to_sub as int, rule.strength, x, y, z, c)[
                    m].site as int,
            );
        assert(rules[rules.len() - 1] == rule);
        assert(whole[n] == offsets_entries(
            rule.offsets@,
            rule.to_sub as int,
            rule.strength,
            x,
            y,
            z,
            c,
        )[m]);
    }
}

/// Every matching rule offset that resolves contributes an entry.
proof fn lemma_rules_source_entry(
    rules: Seq<ExchangeRule>,
    sub: int,
    x: int,
    y: int,
    z: int,
    c: CellShape,
    r: int,
    k: int,
)
    requires
        c.wf(),
        0 <= r < rules.len(),
        rules[r].from_sub as int == sub,
        0 <= k < rules[r].offsets@.len(),
        offset_target(rules[r].offsets@[k], rules[r].to_sub as int, x, y, z, c) is Some,
    ensures
        exists|n: int|
            0 <= n < rules_entries(rules, sub, x, y, z, c).len() && (#[trigger] rules_entries(
                rules,
                sub,
                x,
                y,
                z,
                c,
            )[n]).site as int == offset_target(
                rules[r].offsets@[k],
                rules[r].to_sub as int,
                x,
                y,
                z,
                c,
            )->Some_0 && rules_entries(rules, sub, x, y, z, c)[n].strength == rules[r].strength,
    decreases rules.len(),
{
    let whole = rules_entries(rules, sub, x, y, z, c);
    let prefix = rules_entries(rules.drop_last(), sub, x, y, z, c);
    if r == rules.len() - 1 {
        let rule = rules.last();
        lemma_offsets_source_entry(
            rule.offsets@,
            rule.to_sub as int,
            rule.strength,
            x,
            y,
            z,
            c,
            k,
        );
        let m = choose|m: int|
            0 <= m < offsets_entries(
                rule.offsets@,
                rule.to_sub as int,
                rule.strength,
                x,
                y,
                z,
                c,
            ).len() && (#[trigger] offsets_entries(
                rule.offsets@,
                rule.to_sub as int,
                rule.strength,
                x,
                y,
                z,
                c,
            )[m]).site as int == offset_target(
                rule.offsets@[k],
                rule.to_sub as int,
                x,
                y,
                z,
                c,
            )->Some_0 && offsets_entries(
                rule.offsets@,
                rule.to_sub as int,
                rule.strength,
                x,
                y,
                z,
                c,
            )[m].strength == rule.strength;
        assert(whole[prefix.len() + m] == offsets_entries(
            rule.offsets@,
            rule.to_sub as int,
            rule.strength,
            x,
            y,
            z,
            c,
        )[m]);
    } else {
        assert(rules.drop_last()[r] == rules[r]);
        lemma_rules_source_entry(rules.drop_last(), sub, x, y, z, c, r, k);
        let n = choose|n: int|
            0 <= n < prefix.len() && (#[trigger] prefix[n]).site as int == offset_target(
                rules[r].offsets@[k],
                rules[r].to_sub as int,
                x,
                y,
                z,
                c,
            )->Some_0 && prefix[n].strength == rules[r].strength;
        assert(whole[n] == prefix[n]);
    }
}

impl Lattice {
    /// Every directed bond of a symmetric rule set is matched by the
    /// reverse bond with the same coupling word, so each unordered bond is
    /// seen from exactly its two endpoints and the half-sum of per-site
    /// energies counts it once.
    pub proof fn lemma_edge_symmetry(&self, i: int, j: int, st: u64)
        requires
            self.wf(),
            rules_symmetric(self.rules@),
            0 <= i < self.size,
            has_edge(self, i, j, st),
        ensures
            0 <= j < self.size,
            has_edge(self, j, i, st),
    {
        let c = self.cell();
        let rules = self.rules@;
        let sub_i = site_sub(i, c.d0, c.d1, c.d2);
        let x_i = site_x(i, c.d0, c.d1, c.d2);
        let y_i = site_y(i, c.d0, c.d1, c.d2);
        let z_i = site_z(i, c.d0, c.d1, c.d2);
        crate::topology::lemma_lin_index_encode(i, c.d0, c.d1, c.d2, c.subs);
        let n = choose|n: int|
            0 <= n < self.neighbors@[i]@.len() && (#[trigger] self.neighbors@[i]@[n]).site as int
                == j && self.neighbors@[i]@[n].strength == st;
        assert(self.neighbors@[i]@ == site_entries(rules, i, c));
        lemma_rules_entry_source(rules, sub_i, x_i, y_i, z_i, c, n);
        let (r, k): (int, int) = choose|r: int, k: int|
            #![trigger rules[r].offsets@[k]]
            0 <= r < rules.len() && rules[r].from_sub as int == sub_i && 0 <= k < rules[
                r].offsets@.len() && offset_target(
                rules[r].offsets@[k],
                rules[r].to_sub as int,
                x_i,
                y_i,
                z_i,
                c,
            ) == Some(j) && rules[r].strength == st;
        let (r2, k2): (int, int) = choose|r2: int, k2: int| mirrors(rules, r, k, r2, k2);
        assert(mirrors(rules, r, k, r2, k2));
        lemma_offset_target_reverse(
            rules[r].offsets@[k],
            rules[r2].offsets@[k2],
            sub_i,
            rules[r].to_sub as int,
            x_i,
            y_i,
            z_i,
            c,
        );
        let sub_j = site_sub(j, c.d0, c.d1, c.d2);
        let x_j = site_x(j, c.d0, c.d1, c.d2);
        let y_j = site_y(j, c.d0, c.d1, c.d2);
        let z_j = site_z(j, c.d0, c.d1, c.d2);
        lemma_lin_index_decode(
            rules[r].to_sub as int,
            wrap_axis(x_i + rules[r].offsets@[k]@[0], c.d0, c.p0)->Some_0,
            wrap_axis(y_i + rules[r].offsets@[k]@[1], c.d1, c.p1)->Some_0,
            wrap_axis(z_i + rules[r].offsets@[k]@[2], c.d2, c.p2)->Some_0,
            c.d0,
            c.d1,
            c.d2,
            c.subs,
        );
        vstd::arithmetic::div_mod::lemma_mod_bound(x_i + rules[r].offsets@[k]@[0], c.d0);
        vstd::arithmetic::div_mod::lemma_mod_bound(y_i + rules[r].offsets@[k]@[1], c.d1);
        vstd::arithmetic::div_mod::lemma_mod_bound(z_i + rules[r].offsets@[k]@[2], c.d2);
        assert(sub_j == rules[r].to_sub as int);
        assert(rules[r2].from_sub as int == sub_j);
        assert(offset_target(rules[r2].offsets@[k2], rules[r2].to_sub as int, x_j, y_j, z_j, c)
            == Some(i));
        lemma_rules_source_entry(rules, sub_j, x_j, y_j, z_j, c, r2, k2);
        assert(self.neighbors@[j]@ == site_entries(rules, j, c));
    }
}

} // verus!
