//! Site index space of a rectangular lattice with a sublattice basis.
//!
//! A site is identified by a sublattice index and an integer cell coordinate
//! `(x, y, z)`; it is mapped bijectively to a dense linear index, with `z` the
//! fastest axis and the sublattice the slowest. Neighbor targets outside the
//! cell are wrapped on periodic axes and dropped on open ones.

use vstd::prelude::*;
use vstd::arithmetic::div_mod::{
    lemma_fundamental_div_mod_converse_div, lemma_fundamental_div_mod_converse_mod,
};

verus! {

broadcast use vstd::array::group_array_axioms;

/// The dense linear index of the site on sublattice `sub` at cell `(x, y, z)`
/// in a cell of dimensions `(d0, d1, d2)`.
pub open spec fn lin_index(sub: int, x: int, y: int, z: int, d0: int, d1: int, d2: int) -> int {
    sub * (d0 * d1 * d2) + x * (d1 * d2) + y * d2 + z
}

/// The sublattice index encoded in linear index `i`.
pub open spec fn site_sub(i: int, d0: int, d1: int, d2: int) -> int {
    i / (d0 * d1 * d2)
}

/// The x coordinate encoded in linear index `i`.
pub open spec fn site_x(i: int, d0: int, d1: int, d2: int) -> int {
    (i / (d1 * d2)) % d0
}

/// The y coordinate encoded in linear index `i`.
pub open spec fn site_y(i: int, d0: int, d1: int, d2: int) -> int {
    (i / d2) % d1
}

/// The z coordinate encoded in linear index `i`.
pub open spec fn site_z(i: int, d0: int, d1: int, d2: int) -> int {
    i % d2
}

/// Coordinates within bounds.
pub open spec fn coord_in_range(
    sub: int,
    x: int,
    y: int,
    z: int,
    d0: int,
    d1: int,
    d2: int,
    subs: int,
) -> bool {
    &&& 0 <= sub < subs
    &&& 0 <= x < d0
    &&& 0 <= y < d1
    &&& 0 <= z < d2
}

/// Encoding in-range coordinates gives an index below the site count, and
/// decoding it recovers the coordinates.
pub proof fn lemma_lin_index_decode(
    sub: int,
    x: int,
    y: int,
    z: int,
    d0: int,
    d1: int,
    d2: int,
    subs: int,
)
    requires
        coord_in_range(sub, x, y, z, d0, d1, d2, subs),
    ensures
        0 <= lin_index(sub, x, y, z, d0, d1, d2) < subs * (d0 * d1 * d2),
        site_sub(lin_index(sub, x, y, z, d0, d1, d2), d0, d1, d2) == sub,
        site_x(lin_index(sub, x, y, z, d0, d1, d2), d0, d1, d2) == x,
        site_y(lin_index(sub, x, y, z, d0, d1, d2), d0, d1, d2) == y,
        site_z(lin_index(sub, x, y, z, d0, d1, d2), d0, d1, d2) == z,
{
    let i = lin_index(sub, x, y, z, d0, d1, d2);
    // Peel the z axis: i == (sub * (d0 * d1) + x * d1 + y) * d2 + z.
    let qz = sub * (d0 * d1) + x * d1 + y;
    assert(i == qz * d2 + z) by (nonlinear_arith)
        requires
            i == sub * (d0 * d1 * d2) + x * (d1 * d2) + y * d2 + z,
            qz == sub * (d0 * d1) + x * d1 + y,
    ;
    lemma_fundamental_div_mod_converse_mod(i, d2, qz, z);
    lemma_fundamental_div_mod_converse_div(i, d2, qz, z);
    // Peel the y axis: qz == (sub * d0 + x) * d1 + y.
    let qy = sub * d0 + x;
    assert(qz == qy * d1 + y) by (nonlinear_arith)
        requires
            qz == sub * (d0 * d1) + x * d1 + y,
            qy == sub * d0 + x,
    ;
    lemma_fundamental_div_mod_converse_mod(qz, d1, qy, y);
    lemma_fundamental_div_mod_converse_div(qz, d1, qy, y);
    // Peel the x axis: qy == sub * d0 + x.
    lemma_fundamental_div_mod_converse_mod(qy, d0, sub, x);
    lemma_fundamental_div_mod_converse_div(qy, d0, sub, x);
    // site_z is immediate; site_y needs i / d2 == qz; site_x and site_sub
    // need i / (d1 * d2) == qy, via two successive divisions.
    assert(i == qy * (d1 * d2) + (y * d2 + z)) by (nonlinear_arith)
        requires
            i == qz * d2 + z,
            qz == qy * d1 + y,
    ;
    assert(0 <= y * d2 + z < d1 * d2) by (nonlinear_arith)
        requires
            0 <= y < d1,
            0 <= z < d2,
    ;
    lemma_fundamental_div_mod_converse_div(i, d1 * d2, qy, y * d2 + z);
    assert(i == sub * (d0 * d1 * d2) + (x * (d1 * d2) + y * d2 + z)) by (nonlinear_arith)
        requires
            i == lin_index(sub, x, y, z, d0, d1, d2),
    ;
    assert(0 <= x * (d1 * d2) + y * d2 + z < d0 * d1 * d2) by (nonlinear_arith)
        requires
            0 <= x < d0,
            0 <= y < d1,
            0 <= z < d2,
    ;
    lemma_fundamental_div_mod_converse_div(i, d0 * d1 * d2, sub, x * (d1 * d2) + y * d2 + z);
    assert(0 <= i < subs * (d0 * d1 * d2)) by (nonlinear_arith)
        requires
            i == sub * (d0 * d1 * d2) + (x * (d1 * d2) + y * d2 + z),
            0 <= x * (d1 * d2) + y * d2 + z < d0 * d1 * d2,
            0 <= sub < subs,
    ;
}

/// Decoding an index below the site count gives in-range coordinates, and
/// encoding them recovers the index.
pub proof fn lemma_lin_index_encode(i: int, d0: int, d1: int, d2: int, subs: int)
    requires
        0 < d0,
        0 < d1,
        0 < d2,
        0 < subs,
        0 <= i < subs * (d0 * d1 * d2),
    ensures
        coord_in_range(
            site_sub(i, d0, d1, d2),
            site_x(i, d0, d1, d2),
            site_y(i, d0, d1, d2),
            site_z(i, d0, d1, d2),
            d0,
            d1,
            d2,
            subs,
        ),
        lin_index(
            site_sub(i, d0, d1, d2),
            site_x(i, d0, d1, d2),
            site_y(i, d0, d1, d2),
            site_z(i, d0, d1, d2),
            d0,
            d1,
            d2,
        ) == i,
{
    let sub = site_sub(i, d0, d1, d2);
    let x = site_x(i, d0, d1, d2);
    let y = site_y(i, d0, d1, d2);
    let z = site_z(i, d0, d1, d2);
    vstd::arithmetic::div_mod::lemma_fundamental_div_mod(i, d2);
    vstd::arithmetic::div_mod::lemma_mod_bound(i, d2);
    vstd::arithmetic::div_mod::lemma_fundamental_div_mod(i / d2, d1);
    vstd::arithmetic::div_mod::lemma_mod_bound(i / d2, d1);
    vstd::arithmetic::div_mod::lemma_fundamental_div_mod(i / (d1 * d2), d0);
    vstd::arithmetic::div_mod::lemma_mod_bound(i / (d1 * d2), d0);
    assert(0 < d1 * d2) by (nonlinear_arith)
        requires
            0 < d1,
            0 < d2,
    ;
    assert(0 < d0 * d1 * d2) by (nonlinear_arith)
        requires
            0 < d0,
            0 < d1 * d2,
    ;
    // Nonnegative quotients.
    vstd::arithmetic::div_mod::lemma_div_pos_is_pos(i, d2);
    vstd::arithmetic::div_mod::lemma_div_pos_is_pos(i, d1 * d2);
    vstd::arithmetic::div_mod::lemma_div_pos_is_pos(i, d0 * d1 * d2);
    // (i / d2) / d1 == i / (d1 * d2) and (i / (d1 * d2)) / d0 == sub.
    vstd::arithmetic::div_mod::lemma_div_denominator(i, d2, d1);
    vstd::arithmetic::div_mod::lemma_div_denominator(i, d1 * d2, d0);
    assert(d2 * d1 == d1 * d2) by (nonlinear_arith);
    assert((d1 * d2) * d0 == d0 * d1 * d2) by (nonlinear_arith);
    // sub < subs, from i < subs * (d0 * d1 * d2).
    assert(i / (d0 * d1 * d2) < subs) by {
        vstd::arithmetic::div_mod::lemma_div_by_multiple_is_strongly_ordered(
            i,
            subs * (d0 * d1 * d2),
            subs,
            d0 * d1 * d2,
        );
        vstd::arithmetic::div_mod::lemma_div_by_multiple(subs, d0 * d1 * d2);
    }
    // Reassemble: i == sub * (d0*d1*d2) + x * (d1*d2) + y * d2 + z.
    let qz = i / d2;
    let qy = i / (d1 * d2);
    assert(qy == sub * d0 + x) by (nonlinear_arith)
        requires
            qy == d0 * (qy / d0) + qy % d0,
            sub == qy / d0,
            x == qy % d0,
    ;
    assert(qz == qy * d1 + y) by (nonlinear_arith)
        requires
            qz == d1 * (qz / d1) + qz % d1,
            qy == qz / d1,
            y == qz % d1,
    ;
    assert(i == qz * d2 + z) by (nonlinear_arith)
        requires
            i == d2 * (i / d2) + i % d2,
            qz == i / d2,
            z == i % d2,
    ;
    assert(i == qy * (d1 * d2) + y * d2 + z) by (nonlinear_arith)
        requires
            i == qz * d2 + z,
            qz == qy * d1 + y,
    ;
    assert(lin_index(sub, x, y, z, d0, d1, d2) == i) by (nonlinear_arith)
        requires
            i == qy * (d1 * d2) + y * d2 + z,
            qy == sub * d0 + x,
            lin_index(sub, x, y, z, d0, d1, d2) == sub * (d0 * d1 * d2) + x * (d1 * d2) + y * d2
                + z,
    ;
}

/// Resolve one axis of a target coordinate: a coordinate inside `[0, d)` is
/// kept, one outside is wrapped modulo `d` on a periodic axis and dropped on
/// an open one.
pub open spec fn wrap_axis(c: int, d: int, periodic: bool) -> Option<int> {
    if 0 <= c < d {
        Some(c)
    } else if periodic {
        Some(c % d)
    } else {
        None
    }
}

/// Resolve a full target coordinate to a linear site index, axis by axis;
/// a target on a sublattice outside the basis never resolves.
pub open spec fn resolve_index(
    cx: int,
    cy: int,
    cz: int,
    sub: int,
    d0: int,
    d1: int,
    d2: int,
    subs: int,
    p0: bool,
    p1: bool,
    p2: bool,
) -> Option<int> {
    if sub >= subs {
        None
    } else {
        match (wrap_axis(cx, d0, p0), wrap_axis(cy, d1, p1), wrap_axis(cz, d2, p2)) {
            (Some(wx), Some(wy), Some(wz)) => Some(lin_index(sub, wx, wy, wz, d0, d1, d2)),
            _ => None,
        }
    }
}

/// A resolved index lies below the site count.
pub proof fn lemma_resolve_index_bound(
    cx: int,
    cy: int,
    cz: int,
    sub: int,
    d0: int,
    d1: int,
    d2: int,
    subs: int,
    p0: bool,
    p1: bool,
    p2: bool,
)
    requires
        0 < d0,
        0 < d1,
        0 < d2,
        0 <= sub,
        resolve_index(cx, cy, cz, sub, d0, d1, d2, subs, p0, p1, p2) is Some,
    ensures
        0 <= resolve_index(cx, cy, cz, sub, d0, d1, d2, subs, p0, p1, p2)->Some_0 < subs * (d0 * d1
            * d2),
{
    let wx = wrap_axis(cx, d0, p0)->Some_0;
    let wy = wrap_axis(cy, d1, p1)->Some_0;
    let wz = wrap_axis(cz, d2, p2)->Some_0;
    vstd::arithmetic::div_mod::lemma_mod_bound(cx, d0);
    vstd::arithmetic::div_mod::lemma_mod_bound(cy, d1);
    vstd::arithmetic::div_mod::lemma_mod_bound(cz, d2);
    lemma_lin_index_decode(sub, wx, wy, wz, d0, d1, d2, subs);
}

/// Wraps or drops one axis of a target coordinate.
///
/// The computation is exact for any `i128` coordinate, so offsets of any
/// magnitude wrap correctly.
pub(crate) fn wrap_coordinate(c0: i128, d: usize, periodic: bool) -> (r: Option<usize>)
    requires
        1 <= d,
    ensures
        match r {
            Some(u) => wrap_axis(c0 as int, d as int, periodic) == Some(u as int) && u < d,
            None => wrap_axis(c0 as int, d as int, periodic) is None,
        },
{
    let dd = d as i128;
    if 0 <= c0 && c0 < dd {
        return Some(c0 as usize);
    }
    if !periodic {
        return None;
    }
    let mut c = c0;
    while c < 0
        invariant
            1 <= dd <= usize::MAX,
            dd == d,
            c as int % dd as int == c0 as int % dd as int,
        decreases (if c < 0 { 0 - c } else { 0int }),
    {
        proof {
            vstd::arithmetic::div_mod::lemma_mod_add_multiples_vanish(c as int, dd as int);
        }
        c = c + dd;
    }
    while c >= dd
        invariant
            1 <= dd <= usize::MAX,
            dd == d,
            0 <= c,
            c as int % dd as int == c0 as int % dd as int,
        decreases c,
    {
        proof {
            vstd::arithmetic::div_mod::lemma_mod_sub_multiples_vanish(c as int, dd as int);
        }
        c = c - dd;
    }
    proof {
        vstd::arithmetic::div_mod::lemma_small_mod(c as nat, dd as nat);
    }
    Some(c as usize)
}

/// Computes the dense linear index from in-range scalar coordinates.
pub(crate) fn lin_index_exec(sublattice: usize, x: usize, y: usize, z: usize, d0: usize, d1: usize, d2: usize)
    -> (r: usize)
    requires
        x < d0,
        y < d1,
        z < d2,
        (sublattice + 1) * (d0 * d1 * d2) <= usize::MAX,
    ensures
        r == lin_index(
            sublattice as int,
            x as int,
            y as int,
            z as int,
            d0 as int,
            d1 as int,
            d2 as int,
        ),
{
    let ghost di0 = d0 as int;
    let ghost di1 = d1 as int;
    let ghost di2 = d2 as int;
    let ghost s = sublattice as int;
    proof {
        assert(di1 * di2 <= di0 * di1 * di2 && di0 * (di1 * di2) == di0 * di1 * di2 && di0 * di1
            * di2 <= (s + 1) * (di0 * di1 * di2)) by (nonlinear_arith)
            requires
                1 <= di0,
                0 < di1,
                0 < di2,
                0 <= s,
        ;
        lemma_lin_index_decode(s, x as int, y as int, z as int, di0, di1, di2, s + 1);
        assert(s * (di0 * di1 * di2) >= 0 && (x as int) * (di1 * di2) >= 0 && (y as int) * di2
            >= 0) by (nonlinear_arith)
            requires
                0 <= x,
                0 <= y,
                0 < di1,
                0 < di2,
                0 < di0,
                0 <= s,
        ;
    }
    let vol_yz = d1 * d2;
    let vol = d0 * vol_yz;
    sublattice * vol + x * vol_yz + y * d2 + z
}

/// Maps an in-range coordinate and sublattice to its dense linear index.
pub fn coord_to_index(coord: [isize; 3], sublattice: usize, dim: [usize; 3]) -> (r: usize)
    requires
        0 <= coord@[0] < dim@[0],
        0 <= coord@[1] < dim@[1],
        0 <= coord@[2] < dim@[2],
        (sublattice + 1) * (dim@[0] * dim@[1] * dim@[2]) <= usize::MAX,
    ensures
        r == lin_index(
            sublattice as int,
            coord@[0] as int,
            coord@[1] as int,
            coord@[2] as int,
            dim@[0] as int,
            dim@[1] as int,
            dim@[2] as int,
        ),
{
    lin_index_exec(
        sublattice,
        coord[0] as usize,
        coord[1] as usize,
        coord[2] as usize,
        dim[0],
        dim[1],
        dim[2],
    )
}

/// Recovers the sublattice and coordinate encoded in a linear site index.
pub fn index_to_coord(i: usize, dim: [usize; 3], sublattices: usize) -> (r: (usize, usize, usize,
    usize))
    requires
        1 <= dim@[0],
        1 <= dim@[1],
        1 <= dim@[2],
        1 <= sublattices,
        sublattices * (dim@[0] * dim@[1] * dim@[2]) <= usize::MAX,
        i < sublattices * (dim@[0] * dim@[1] * dim@[2]),
    ensures
        r.0 == site_sub(i as int, dim@[0] as int, dim@[1] as int, dim@[2] as int),
        r.1 == site_x(i as int, dim@[0] as int, dim@[1] as int, dim@[2] as int),
        r.2 == site_y(i as int, dim@[0] as int, dim@[1] as int, dim@[2] as int),
        r.3 == site_z(i as int, dim@[0] as int, dim@[1] as int, dim@[2] as int),
        coord_in_range(
            r.0 as int,
            r.1 as int,
            r.2 as int,
            r.3 as int,
            dim@[0] as int,
            dim@[1] as int,
            dim@[2] as int,
            sublattices as int,
        ),
        lin_index(
            r.0 as int,
            r.1 as int,
            r.2 as int,
            r.3 as int,
            dim@[0] as int,
            dim@[1] as int,
            dim@[2] as int,
        ) == i,
{
    let d0 = dim[0];
    let d1 = dim[1];
    let d2 = dim[2];
    proof {
        lemma_lin_index_encode(i as int, d0 as int, d1 as int, d2 as int, sublattices as int);
        assert(1 <= (d1 as int) * (d2 as int) && (d1 as int) * (d2 as int) <= (d0 as int) * (
        d1 as int) * (d2 as int) && (d0 as int) * ((d1 as int) * (d2 as int)) == (d0 as int) * (
        d1 as int) * (d2 as int) && 1 <= (d0 as int) * (d1 as int) * (d2 as int) && (d0 as int) * (
        d1 as int) * (d2 as int) <= (sublattices as int) * ((d0 as int) * (d1 as int) * (
        d2 as int))) by (nonlinear_arith)
            requires
                1 <= d0,
                1 <= d1,
                1 <= d2,
                1 <= sublattices,
        ;
    }
    let vol_yz = d1 * d2;
    let vol = d0 * vol_yz;
    let z = i % d2;
    let y = (i / d2) % d1;
    let x = (i / vol_yz) % d0;
    let sub = i / vol;
    (sub, x, y, z)
}

/// Maps a target coordinate — possibly outside the cell — to a site index:
/// each axis is wrapped on a periodic boundary and dropped on an open one,
/// and a sublattice outside the basis never resolves.
pub fn safe_coord_to_index(
    coord: [isize; 3],
    sublattice: usize,
    dim: [usize; 3],
    sublattices: usize,
    pbc: [bool; 3],
) -> (r: Option<usize>)
    requires
        1 <= dim@[0],
        1 <= dim@[1],
        1 <= dim@[2],
        1 <= sublattices,
        sublattices * (dim@[0] * dim@[1] * dim@[2]) <= usize::MAX,
    ensures
        match r {
            Some(u) => resolve_index(
                coord@[0] as int,
                coord@[1] as int,
                coord@[2] as int,
                sublattice as int,
                dim@[0] as int,
                dim@[1] as int,
                dim@[2] as int,
                sublattices as int,
                pbc@[0],
                pbc@[1],
                pbc@[2],
            ) == Some(u as int) && u < sublattices * (dim@[0] * dim@[1] * dim@[2]),
            None => resolve_index(
                coord@[0] as int,
                coord@[1] as int,
                coord@[2] as int,
                sublattice as int,
                dim@[0] as int,
                dim@[1] as int,
                dim@[2] as int,
                sublattices as int,
                pbc@[0],
                pbc@[1],
                pbc@[2],
            ) is None,
        },
{
    if sublattice >= sublattices {
        return None;
    }
    let wx = match wrap_coordinate(coord[0] as i128, dim[0], pbc[0]) {
        Some(u) => u,
        None => {
            return None;
        },
    };
    let wy = match wrap_coordinate(coord[1] as i128, dim[1], pbc[1]) {
        Some(u) => u,
        None => {
            return None;
        },
    };
    let wz = match wrap_coordinate(coord[2] as i128, dim[2], pbc[2]) {
        Some(u) => u,
        None => {
            return None;
        },
    };
    proof {
        assert((sublattice + 1) * (dim@[0] * dim@[1] * dim@[2]) <= sublattices * (dim@[0] * dim@[1]
            * dim@[2])) by (nonlinear_arith)
            requires
                sublattice + 1 <= sublattices,
                1 <= dim@[0],
                1 <= dim@[1],
                1 <= dim@[2],
        ;
        lemma_lin_index_decode(
            sublattice as int,
            wx as int,
            wy as int,
            wz as int,
            dim@[0] as int,
            dim@[1] as int,
            dim@[2] as int,
            sublattices as int,
        );
    }
    Some(lin_index_exec(sublattice, wx, wy, wz, dim[0], dim[1], dim[2]))
}

} // verus!
