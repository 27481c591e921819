//! Lattice construction: exchange rules resolved into per-site neighbor lists.
//!
//! An exchange rule is translation invariant: it is instantiated at every
//! unit cell whose sublattice matches its source. Each offset of a matching
//! rule is resolved with wrap-or-drop boundary handling, and the surviving
//! targets form the site's neighbor list, in rule order. A site whose list
//! names the same target twice is a fatal configuration error.

use vstd::prelude::*;
use crate::error::ConfigError;
use crate::topology::{
    lemma_lin_index_decode, lemma_resolve_index_bound, resolve_index, site_sub, site_x, site_y,
    site_z,
};

verus! {

broadcast use vstd::array::group_array_axioms;

/// One resolved bond: the target site's linear index and the coupling word.
///
/// The coupling is carried as an opaque 64-bit word; its numeric
/// interpretation belongs to the caller.
#[derive(Clone, Copy, Debug, PartialEq, Eq, Structural)]
pub struct NeighborEntry {
    pub site: usize,
    pub strength: u64,
}

/// A translation-invariant exchange rule: every site on `from_sub` couples to
/// the site on `to_sub` displaced by each offset, with one coupling word.
#[derive(Clone, Debug)]
pub struct ExchangeRule {
    pub from_sub: usize,
    pub to_sub: usize,
    pub offsets: Vec<[isize; 3]>,
    pub strength: u64,
}

/// The shape of the periodic cell: dimensions, basis size, boundary flags.
pub ghost struct CellShape {
    pub d0: int,
    pub d1: int,
    pub d2: int,
    pub subs: int,
    pub p0: bool,
    pub p1: bool,
    pub p2: bool,
}

impl CellShape {
    /// The cell volume.
    pub open spec fn vol(self) -> int {
        self.d0 * self.d1 * self.d2
    }

    /// The number of sites.
    pub open spec fn total(self) -> int {
        self.subs * (self.d0 * self.d1 * self.d2)
    }

    /// A well-shaped cell.
    pub open spec fn wf(self) -> bool {
        &&& 1 <= self.d0
        &&& 1 <= self.d1
        &&& 1 <= self.d2
        &&& 1 <= self.subs
        &&& self.total() <= usize::MAX
    }
}

/// The cell shape described by exec-level arguments.
pub open spec fn cell_shape(dim: Seq<usize>, sublattices: usize, pbc: Seq<bool>) -> CellShape {
    CellShape {
        d0: dim[0] as int,
        d1: dim[1] as int,
        d2: dim[2] as int,
        subs: sublattices as int,
        p0: pbc[0],
        p1: pbc[1],
        p2: pbc[2],
    }
}

/// Where one offset of a rule sends the site at `(x, y, z)`, if anywhere.
pub open spec fn offset_target(off: [isize; 3], to_sub: int, x: int, y: int, z: int, c: CellShape)
    -> Option<int> {
    resolve_index(
        x + off@[0],
        y + off@[1],
        z + off@[2],
        to_sub,
        c.d0,
        c.d1,
        c.d2,
        c.subs,
        c.p0,
        c.p1,
        c.p2,
    )
}

/// The neighbor entries contributed by a list of offsets, in list order;
/// a dropped target contributes nothing.
pub open spec fn offsets_entries(
    offs: Seq<[isize; 3]>,
    to_sub: int,
    strength: u64,
    x: int,
    y: int,
    z: int,
    c: CellShape,
) -> Seq<NeighborEntry>
    decreases offs.len(),
{
    if offs.len() == 0 {
        Seq::empty()
    } else {
        offsets_entries(offs.drop_last(), to_sub, strength, x, y, z, c) + match offset_target(
            offs.last(),
            to_sub,
            x,
            y,
            z,
            c,
        ) {
            Some(t) => seq![NeighborEntry { site: t as usize, strength }],
            None => Seq::empty(),
        }
    }
}

/// The neighbor entries one rule contributes at a site: all of its offsets
/// when the site's sublattice matches the rule's source, nothing otherwise.
pub open spec fn rule_entries(rule: ExchangeRule, sub: int, x: int, y: int, z: int, c: CellShape)
    -> Seq<NeighborEntry> {
    if rule.from_sub as int == sub {
        offsets_entries(rule.offsets@, rule.to_sub as int, rule.strength, x, y, z, c)
    } else {
        Seq::empty()
    }
}

/// The neighbor entries a rule list contributes at a site, in rule order.
pub open spec fn rules_entries(
    rules: Seq<ExchangeRule>,
    sub: int,
    x: int,
    y: int,
    z: int,
    c: CellShape,
) -> Seq<NeighborEntry>
    decreases rules.len(),
{
    if rules.len() == 0 {
        Seq::empty()
    } else {
        rules_entries(rules.drop_last(), sub, x, y, z, c) + rule_entries(
            rules.last(),
            sub,
            x,
            y,
            z,
            c,
        )
    }
}

/// The full neighbor list of the site with linear index `i`.
pub open spec fn site_entries(rules: Seq<ExchangeRule>, i: int, c: CellShape) -> Seq<
    NeighborEntry,
> {
    rules_entries(
        rules,
        site_sub(i, c.d0, c.d1, c.d2),
        site_x(i, c.d0, c.d1, c.d2),
        site_y(i, c.d0, c.d1, c.d2),
        site_z(i, c.d0, c.d1, c.d2),
        c,
    )
}

/// No two entries of the list name the same target site.
pub open spec fn distinct_sites(s: Seq<NeighborEntry>) -> bool {
    forall|p: int, q: int| 0 <= p < q < s.len() ==> s[p].site != s[q].site
}

/// Appending one rule to a prefix of the rule list extends its entries.
proof fn lemma_rules_entries_take_step(
    rules: Seq<ExchangeRule>,
    r: int,
    sub: int,
    x: int,
    y: int,
    z: int,
    c: CellShape,
)
    requires
        0 <= r < rules.len(),
    ensures
        rules_entries(rules.take(r + 1), sub, x, y, z, c) == rules_entries(
            rules.take(r),
            sub,
            x,
            y,
            z,
            c,
        ) + rule_entries(rules[r], sub, x, y, z, c),
{
    assert(rules.take(r + 1).drop_last() =~= rules.take(r));
    assert(rules.take(r + 1).last() == rules[r]);
}

/// Appending one offset to a prefix of an offset list extends its entries.
proof fn lemma_offsets_entries_take_step(
    offs: Seq<[isize; 3]>,
    k: int,
    to_sub: int,
    strength: u64,
    x: int,
    y: int,
    z: int,
    c: CellShape,
)
    requires
        0 <= k < offs.len(),
    ensures
        offsets_entries(offs.take(k + 1), to_sub, strength, x, y, z, c) == offsets_entries(
            offs.take(k),
            to_sub,
            strength,
            x,
            y,
            z,
            c,
        ) + match offset_target(offs[k], to_sub, x, y, z, c) {
            Some(t) => seq![NeighborEntry { site: t as usize, strength }],
            None => Seq::empty(),
        },
{
    assert(offs.take(k + 1).drop_last() =~= offs.take(k));
    assert(offs.take(k + 1).last() == offs[k]);
}

/// Every entry a list of offsets contributes targets a site below the count.
proof fn lemma_offsets_entries_valid(
    offs: Seq<[isize; 3]>,
    to_sub: int,
    strength: u64,
    x: int,
    y: int,
    z: int,
    c: CellShape,
)
    requires
        c.wf(),
        0 <= to_sub,
    ensures
        forall|k: int|
            0 <= k < offsets_entries(offs, to_sub, strength, x, y, z, c).len() ==> (
            #[trigger] offsets_entries(offs, to_sub, strength, x, y, z, c)[k]).site < c.total(),
    decreases offs.len(),
{
    if offs.len() > 0 {
        lemma_offsets_entries_valid(offs.drop_last(), to_sub, strength, x, y, z, c);
        let t = offset_target(offs.last(), to_sub, x, y, z, c);
        if t is Some {
            lemma_resolve_index_bound(
                x + offs.last()@[0],
                y + offs.last()@[1],
                z + offs.last()@[2],
                to_sub,
                c.d0,
                c.d1,
                c.d2,
                c.subs,
                c.p0,
                c.p1,
                c.p2,
            );
        }
        let whole = offsets_entries(offs, to_sub, strength, x, y, z, c);
        let prefix = offsets_entries(offs.drop_last(), to_sub, strength, x, y, z, c);
        assert forall|k: int| 0 <= k < whole.len() implies (#[trigger] whole[k]).site
            < c.total() by {
            if k < prefix.len() {
                assert(whole[k] == prefix[k]);
            } else {
                assert(whole[k] == NeighborEntry { site: t->Some_0 as usize, strength });
            }
        }
    }
}

/// Every entry a rule list contributes targets a site below the count.
proof fn lemma_rules_entries_valid(
    rules: Seq<ExchangeRule>,
    sub: int,
    x: int,
    y: int,
    z: int,
    c: CellShape,
)
    requires
        c.wf(),
    ensures
        forall|k: int|
            0 <= k < rules_entries(rules, sub, x, y, z, c).len() ==> (#[trigger] rules_entries(
                rules,
                sub,
                x,
                y,
                z,
                c,
            )[k]).site < c.total(),
    decreases rules.len(),
{
    if rules.len() > 0 {
        lemma_rules_entries_valid(rules.drop_last(), sub, x, y, z, c);
        let rule = rules.last();
        if rule.from_sub as int == sub {
            lemma_offsets_entries_valid(
                rule.offsets@,
                rule.to_sub as int,
                rule.strength,
                x,
                y,
                z,
                c,
            );
        }
        let whole = rules_entries(rules, sub, x, y, z, c);
        let prefix = rules_entries(rules.drop_last(), sub, x, y, z, c);
        let tail = rule_entries(rule, sub, x, y, z, c);
        assert forall|k: int| 0 <= k < whole.len() implies (#[trigger] whole[k]).site
            < c.total() by {
            if k < prefix.len() {
                assert(whole[k] == prefix[k]);
            } else {
                assert(whole[k] == tail[k - prefix.len()]);
            }
        }
    }
}


/// Resolves one offset of a rule at the site `(sub, x, y, z)`: the target
/// coordinate is wrapped or dropped per axis and encoded as a site index.
fn resolve_target_exec(
    x: usize,
    y: usize,
    z: usize,
    off: [isize; 3],
    to_sub: usize,
    dim: [usize; 3],
    sublattices: usize,
    pbc: [bool; 3],
) -> (r: Option<usize>)
    requires
        x < dim@[0],
        y < dim@[1],
        z < dim@[2],
        1 <= sublattices,
        sublattices * (dim@[0] * dim@[1] * dim@[2]) <= usize::MAX,
    ensures
        match r {
            Some(u) => offset_target(
                off,
                to_sub as int,
                x as int,
                y as int,
                z as int,
                cell_shape(dim@, sublattices, pbc@),
            ) == Some(u as int) && u < sublattices * (dim@[0] * dim@[1] * dim@[2]),
            None => offset_target(
                off,
                to_sub as int,
                x as int,
                y as int,
                z as int,
                cell_shape(dim@, sublattices, pbc@),
            ) is None,
        },
{
    if to_sub >= sublattices {
        return None;
    }
    let cx = x as i128 + off[0] as i128;
    let cy = y as i128 + off[1] as i128;
    let cz = z as i128 + off[2] as i128;
    let wx = match crate::topology::wrap_coordinate(cx, dim[0], pbc[0]) {
        Some(u) => u,
        None => {
            return None;
        },
    };
    let wy = match crate::topology::wrap_coordinate(cy, dim[1], pbc[1]) {
        Some(u) => u,
        None => {
            return None;
        },
    };
    let wz = match crate::topology::wrap_coordinate(cz, dim[2], pbc[2]) {
        Some(u) => u,
        None => {
            return None;
        },
    };
    proof {
        assert((to_sub + 1) * (dim@[0] * dim@[1] * dim@[2]) <= sublattices * (dim@[0] * dim@[1]
            * dim@[2])) by (nonlinear_arith)
            requires
                to_sub + 1 <= sublattices,
                1 <= dim@[0],
                1 <= dim@[1],
                1 <= dim@[2],
        ;
        lemma_lin_index_decode(
            to_sub as int,
            wx as int,
            wy as int,
            wz as int,
            dim@[0] as int,
            dim@[1] as int,
            dim@[2] as int,
            sublattices as int,
        );
    }
    Some(crate::topology::lin_index_exec(to_sub, wx, wy, wz, dim[0], dim[1], dim[2]))
}

/// Builds the neighbor list of the site `(sub, x, y, z)` from the rule list:
/// each matching rule contributes its resolved offsets, in order.
fn resolve_site(
    rules: &Vec<ExchangeRule>,
    sub: usize,
    x: usize,
    y: usize,
    z: usize,
    dim: [usize; 3],
    sublattices: usize,
    pbc: [bool; 3],
) -> (entries: Vec<NeighborEntry>)
    requires
        x < dim@[0],
        y < dim@[1],
        z < dim@[2],
        1 <= sublattices,
        sublattices * (dim@[0] * dim@[1] * dim@[2]) <= usize::MAX,
    ensures
        entries@ == rules_entries(
            rules@,
            sub as int,
            x as int,
            y as int,
            z as int,
            cell_shape(dim@, sublattices, pbc@),
        ),
{
    let ghost c = cell_shape(dim@, sublattices, pbc@);
    let mut entries: Vec<NeighborEntry> = Vec::new();
    let mut r: usize = 0;
    proof {
        assert(rules@.take(0) =~= Seq::<ExchangeRule>::empty());
    }
    while r < rules.len()
        invariant
            r <= rules.len(),
            x < dim@[0],
            y < dim@[1],
            z < dim@[2],
            1 <= sublattices,
            sublattices * (dim@[0] * dim@[1] * dim@[2]) <= usize::MAX,
            c == cell_shape(dim@, sublattices, pbc@),
            entries@ == rules_entries(rules@.take(r as int), sub as int, x as int, y as int,
                z as int, c),
        decreases rules.len() - r,
    {
        let rule = &rules[r];
        if rule.from_sub == sub {
            let mut k: usize = 0;
            proof {
                assert(rule.offsets@.take(0) =~= Seq::<[isize; 3]>::empty());
            }
            while k < rule.offsets.len()
                invariant
                    k <= rule.offsets.len(),
                    r < rules.len(),
                    rule == rules@[r as int],
                    rule.from_sub == sub,
                    x < dim@[0],
                    y < dim@[1],
                    z < dim@[2],
                    1 <= sublattices,
                    sublattices * (dim@[0] * dim@[1] * dim@[2]) <= usize::MAX,
                    c == cell_shape(dim@, sublattices, pbc@),
                    entries@ == rules_entries(
                        rules@.take(r as int),
                        sub as int,
                        x as int,
                        y as int,
                        z as int,
                        c,
                    ) + offsets_entries(
                        rule.offsets@.take(k as int),
                        rule.to_sub as int,
                        rule.strength,
                        x as int,
                        y as int,
                        z as int,
                        c,
                    ),
                decreases rule.offsets.len() - k,
            {
                let off = rule.offsets[k];
                match resolve_target_exec(x, y, z, off, rule.to_sub, dim, sublattices, pbc) {
                    Some(t) => {
                        entries.push(NeighborEntry { site: t, strength: rule.strength });
                    },
                    None => {},
                }
                proof {
                    lemma_offsets_entries_take_step(
                        rule.offsets@,
                        k as int,
                        rule.to_sub as int,
                        rule.strength,
                        x as int,
                        y as int,
                        z as int,
                        c,
                    );
                }
                k = k + 1;
            }
            proof {
                assert(rule.offsets@.take(rule.offsets@.len() as int) =~= rule.offsets@);
            }
        }
        proof {
            lemma_rules_entries_take_step(
                rules@,
                r as int,
                sub as int,
                x as int,
                y as int,
                z as int,
                c,
            );
        }
        r = r + 1;
    }
    proof {
        assert(rules@.take(rules@.len() as int) =~= rules@);
    }
    entries
}

/// Decides whether a neighbor list names any target site twice.
pub fn neighbor_sites_distinct(entries: &Vec<NeighborEntry>) -> (b: bool)
    ensures
        b <==> distinct_sites(entries@),
{
    let n = entries.len();
    let mut p: usize = 0;
    while p < n
        invariant
            n == entries@.len(),
            p <= n,
            forall|a: int, b: int|
                0 <= a < b < entries@.len() && a < p ==> entries@[a].site != entries@[b].site,
        decreases n - p,
    {
        let mut q: usize = p + 1;
        while q < n
            invariant
                n == entries@.len(),
                p < q <= n,
                p < n,
                forall|b: int| p < b < q ==> entries@[p as int].site != entries@[b].site,
            decreases n - q,
        {
            if entries[p].site == entries[q].site {
                proof {
                    assert(0 <= p < q < entries@.len() && entries@[p as int].site == entries@[
                        q as int].site);
                }
                return false;
            }
            q = q + 1;
        }
        p = p + 1;
    }
    true
}


/// The site indices of one sublattice's block: the cell volume is `vol` and
/// the block occupies `[sub * vol, (sub + 1) * vol)`.
pub open spec fn sub_block(sub: int, vol: int) -> Seq<usize> {
    Seq::new(vol as nat, |k: int| (sub * vol + k) as usize)
}

/// The site indices of a named group: the blocks of its member sublattices,
/// in member order.
pub open spec fn group_sites(members: Seq<usize>, vol: int) -> Seq<usize>
    decreases members.len(),
{
    if members.len() == 0 {
        Seq::empty()
    } else {
        group_sites(members.drop_last(), vol) + sub_block(members.last() as int, vol)
    }
}

/// Appending one member to a prefix of a group extends its sites by a block.
proof fn lemma_group_sites_take_step(members: Seq<usize>, m: int, vol: int)
    requires
        0 <= m < members.len(),
    ensures
        group_sites(members.take(m + 1), vol) == group_sites(members.take(m), vol) + sub_block(
            members[m] as int,
            vol,
        ),
{
    assert(members.take(m + 1).drop_last() =~= members.take(m));
    assert(members.take(m + 1).last() == members[m]);
}

/// A spin lattice's integer structure: the cell shape, the exchange rules,
/// and the resolved per-site neighbor lists.
///
/// The spin orientations themselves are held by the caller, indexed by the
/// same dense site indices.
pub struct Lattice {
    pub dim: [usize; 3],
    pub sublattices: usize,
    pub pbc: [bool; 3],
    pub size: usize,
    pub rules: Vec<ExchangeRule>,
    pub neighbors: Vec<Vec<NeighborEntry>>,
    pub group_index: Vec<Vec<usize>>,
}

impl Lattice {
    /// The cell shape of this lattice.
    pub open spec fn cell(&self) -> CellShape {
        cell_shape(self.dim@, self.sublattices, self.pbc@)
    }

    /// Well-formedness: the size matches the cell, every neighbor list is
    /// exactly what the rules resolve to, no list repeats a target, and all
    /// stored indices lie below the site count.
    pub open spec fn wf(&self) -> bool {
        &&& self.cell().wf()
        &&& self.size == self.cell().total()
        &&& self.neighbors@.len() == self.size
        &&& forall|i: int|
            0 <= i < self.neighbors@.len() ==> (#[trigger] self.neighbors@[i])@ == site_entries(
                self.rules@,
                i,
                self.cell(),
            )
        &&& forall|i: int|
            0 <= i < self.neighbors@.len() ==> distinct_sites((#[trigger] self.neighbors@[i])@)
        &&& forall|i: int, k: int|
            0 <= i < self.neighbors@.len() && 0 <= k < self.neighbors@[i]@.len() ==> (
            #[trigger] self.neighbors@[i]@[k]).site < self.size
        &&& forall|g: int, m: int|
            0 <= g < self.group_index@.len() && 0 <= m < self.group_index@[g]@.len() ==> (
            #[trigger] self.group_index@[g]@[m]) < self.size
    }

    /// Builds a lattice: resolves every exchange rule at every site with
    /// wrap-or-drop boundary handling, and rejects the configuration exactly
    /// when some site's list names the same target twice.
    #[verifier::loop_isolation(false)]
    pub fn build(
        dim: [usize; 3],
        sublattices: usize,
        pbc: [bool; 3],
        rules: Vec<ExchangeRule>,
        groups: &Vec<Vec<usize>>,
    ) -> (r: Result<Lattice, ConfigError>)
        requires
            1 <= dim@[0],
            1 <= dim@[1],
            1 <= dim@[2],
            1 <= sublattices,
            sublattices * (dim@[0] * dim@[1] * dim@[2]) <= usize::MAX,
            forall|g: int, m: int|
                0 <= g < groups@.len() && 0 <= m < groups@[g]@.len() ==> (
                #[trigger] groups@[g]@[m]) < sublattices,
        ensures
            r is Ok <==> (forall|i: int|
                0 <= i < cell_shape(dim@, sublattices, pbc@).total() ==> distinct_sites(
                    #[trigger] site_entries(rules@, i, cell_shape(dim@, sublattices, pbc@)),
                )),
            match r {
                Ok(lat) => {
                    &&& lat.wf()
                    &&& lat.dim@ == dim@
                    &&& lat.sublattices == sublattices
                    &&& lat.pbc@ == pbc@
                    &&& lat.rules@ == rules@
                    &&& lat.size == cell_shape(dim@, sublattices, pbc@).total()
                    &&& lat.group_index@.len() == groups@.len()
                    &&& forall|g: int|
                        0 <= g < groups@.len() ==> (#[trigger] lat.group_index@[g])@
                            == group_sites(
                            groups@[g]@,
                            cell_shape(dim@, sublattices, pbc@).vol(),
                        )
                },
                Err(e) => e matches ConfigError::DuplicateNeighbor { site } && (site as int)
                    < cell_shape(dim@, sublattices, pbc@).total() && !distinct_sites(
                    site_entries(rules@, site as int, cell_shape(dim@, sublattices, pbc@)),
                ),
            },
    {
        let ghost c = cell_shape(dim@, sublattices, pbc@);
        let d0 = dim[0];
        let d1 = dim[1];
        let d2 = dim[2];
        proof {
            assert(1 <= (d1 as int) * (d2 as int) && (d1 as int) * (d2 as int) <= (d0 as int) * (
            d1 as int) * (d2 as int) && (d0 as int) * ((d1 as int) * (d2 as int)) == (d0 as int) * (
            d1 as int) * (d2 as int) && (d0 as int) * (d1 as int) * (d2 as int) <= (
            sublattices as int) * ((d0 as int) * (d1 as int) * (d2 as int))) by (nonlinear_arith)
                requires
                    1 <= d0,
                    1 <= d1,
                    1 <= d2,
                    1 <= sublattices,
            ;
        }
        let vol_yz = d1 * d2;
        let vol = d0 * vol_yz;
        let size = sublattices * vol;
        proof {
            assert(c.wf());
            assert(size == c.total());
            assert(vol == c.vol());
        }
        let mut neighbors: Vec<Vec<NeighborEntry>> = Vec::new();
        let mut i: usize = 0;
        while i < size
            invariant
                i <= size,
                neighbors@.len() == i as int,
                forall|j: int|
                    0 <= j < i as int ==> (#[trigger] neighbors@[j])@ == site_entries(
                        rules@,
                        j,
                        c,
                    ),
                forall|j: int| 0 <= j < i as int ==> distinct_sites(neighbors@[j]@),
                forall|j: int, k: int|
                    0 <= j < i as int && 0 <= k < neighbors@[j]@.len() ==> (
                    #[trigger] neighbors@[j]@[k]).site < size,
            decreases size - i,
        {
            let (sub, x, y, z) = crate::topology::index_to_coord(i, dim, sublattices);
            let entries = resolve_site(&rules, sub, x, y, z, dim, sublattices, pbc);
            proof {
                assert(entries@ == site_entries(rules@, i as int, c));
                lemma_rules_entries_valid(
                    rules@,
                    sub as int,
                    x as int,
                    y as int,
                    z as int,
                    c,
                );
            }
            if !neighbor_sites_distinct(&entries) {
                proof {
                    assert(!distinct_sites(site_entries(rules@, i as int, c)));
                }
                return Err(ConfigError::DuplicateNeighbor { site: i });
            }
            neighbors.push(entries);
            i = i + 1;
        }
        let mut group_index: Vec<Vec<usize>> = Vec::new();
        let mut g: usize = 0;
        while g < groups.len()
            invariant
                g <= groups.len(),
                group_index@.len() == g as int,
                forall|h: int|
                    0 <= h < g as int ==> (#[trigger] group_index@[h])@ == group_sites(
                        groups@[h]@,
                        c.vol(),
                    ),
                forall|h: int, m: int|
                    0 <= h < g as int && 0 <= m < group_index@[h]@.len() ==> (
                    #[trigger] group_index@[h]@[m]) < size,
            decreases groups.len() - g,
        {
            let members = &groups[g];
            let mut sites: Vec<usize> = Vec::new();
            let mut m: usize = 0;
            proof {
                assert(members@.take(0) =~= Seq::<usize>::empty());
            }
            while m < members.len()
                invariant
                    m <= members.len(),
                    sites@ == group_sites(members@.take(m as int), c.vol()),
                    forall|j: int| 0 <= j < sites@.len() ==> (#[trigger] sites@[j]) < size,
                decreases members.len() - m,
            {
                let sub_m = members[m];
                proof {
                    assert((sub_m as int) * (vol as int) + (vol as int) <= (sublattices as int) * (
                    vol as int)) by (nonlinear_arith)
                        requires
                            sub_m as int + 1 <= sublattices as int,
                            0 <= vol,
                    ;
                }
                let base = sub_m * vol;
                let mut k: usize = 0;
                proof {
                    assert(sub_block(sub_m as int, c.vol()).take(0) =~= Seq::<usize>::empty());
                }
                while k < vol
                    invariant
                        k <= vol,
                        m < members.len(),
                        sub_m == members@[m as int],
                        base == (sub_m as int) * (vol as int),
                        base + vol <= size,
                        sites@ == group_sites(members@.take(m as int), c.vol()) + sub_block(
                            sub_m as int,
                            c.vol(),
                        ).take(k as int),
                        forall|j: int| 0 <= j < sites@.len() ==> (#[trigger] sites@[j]) < size,
                    decreases vol - k,
                {
                    sites.push(base + k);
                    proof {
                        assert(sub_block(sub_m as int, c.vol()).take(k as int + 1) =~= sub_block(
                            sub_m as int,
                            c.vol(),
                        ).take(k as int).push((base + k) as usize));
                    }
                    k = k + 1;
                }
                proof {
                    assert(sub_block(sub_m as int, c.vol()).take(vol as int) =~= sub_block(
                        sub_m as int,
                        c.vol(),
                    ));
                    lemma_group_sites_take_step(members@, m as int, c.vol());
                }
                m = m + 1;
            }
            proof {
                assert(members@.take(members@.len() as int) =~= members@);
            }
            group_index.push(sites);
            g = g + 1;
        }
        proof {
            assert forall|j: int| 0 <= j < c.total() implies distinct_sites(
                #[trigger] site_entries(rules@, j, c),
            ) by {
                assert(neighbors@[j]@ == site_entries(rules@, j, c));
                assert(distinct_sites(neighbors@[j]@));
            }
        }
        Ok(Lattice { dim, sublattices, pbc, size, rules, neighbors, group_index })
    }
}


/// The neighbor count a rule list implies for a site on sublattice `sub`:
/// the offsets of every rule whose source sublattice matches.
pub open spec fn matching_offsets(rules: Seq<ExchangeRule>, sub: int) -> int
    decreases rules.len(),
{
    if rules.len() == 0 {
        0
    } else {
        matching_offsets(rules.drop_last(), sub) + if rules.last().from_sub as int == sub {
            rules.last().offsets@.len() as int
        } else {
            0
        }
    }
}

/// An offset list never contributes more entries than it has offsets.
proof fn lemma_offsets_entries_len_le(
    offs: Seq<[isize; 3]>,
    to_sub: int,
    strength: u64,
    x: int,
    y: int,
    z: int,
    c: CellShape,
)
    ensures
        offsets_entries(offs, to_sub, strength, x, y, z, c).len() <= offs.len(),
    decreases offs.len(),
{
    if offs.len() > 0 {
        lemma_offsets_entries_len_le(offs.drop_last(), to_sub, strength, x, y, z, c);
    }
}

/// Under full periodic boundaries, every offset of a rule with an in-basis
/// target sublattice resolves, so the contribution is one entry per offset.
proof fn lemma_offsets_entries_len_periodic(
    offs: Seq<[isize; 3]>,
    to_sub: int,
    strength: u64,
    x: int,
    y: int,
    z: int,
    c: CellShape,
)
    requires
        c.p0,
        c.p1,
        c.p2,
        0 <= to_sub < c.subs,
    ensures
        offsets_entries(offs, to_sub, strength, x, y, z, c).len() == offs.len(),
    decreases offs.len(),
{
    if offs.len() > 0 {
        lemma_offsets_entries_len_periodic(offs.drop_last(), to_sub, strength, x, y, z, c);
        assert(offset_target(offs.last(), to_sub, x, y, z, c) is Some);
    }
}

/// An offset whose target drops makes the contribution strictly smaller than
/// the offset count.
proof fn lemma_offsets_entries_len_lt(
    offs: Seq<[isize; 3]>,
    k: int,
    to_sub: int,
    strength: u64,
    x: int,
    y: int,
    z: int,
    c: CellShape,
)
    requires
        0 <= k < offs.len(),
        offset_target(offs[k], to_sub, x, y, z, c) is None,
    ensures
        offsets_entries(offs, to_sub, strength, x, y, z, c).len() < offs.len(),
    decreases offs.len(),
{
    if k == offs.len() - 1 {
        lemma_offsets_entries_len_le(offs.drop_last(), to_sub, strength, x, y, z, c);
    } else {
        assert(offs.drop_last()[k] == offs[k]);
        lemma_offsets_entries_len_lt(offs.drop_last(), k, to_sub, strength, x, y, z, c);
    }
}

/// A rule list never contributes more entries than it has matching offsets.
proof fn lemma_rules_entries_len_le(
    rules: Seq<ExchangeRule>,
    sub: int,
    x: int,
    y: int,
    z: int,
    c: CellShape,
)
    ensures
        rules_entries(rules, sub, x, y, z, c).len() <= matching_offsets(rules, sub),
        0 <= matching_offsets(rules, sub),
    decreases rules.len(),
{
    if rules.len() > 0 {
        lemma_rules_entries_len_le(rules.drop_last(), sub, x, y, z, c);
        let rule = rules.last();
        if rule.from_sub as int == sub {
            lemma_offsets_entries_len_le(
                rule.offsets@,
                rule.to_sub as int,
                rule.strength,
                x,
                y,
                z,
                c,
            );
        }
    }
}

/// Under full periodic boundaries and in-basis target sublattices, a rule
/// list contributes exactly one entry per matching offset.
proof fn lemma_rules_entries_len_periodic(
    rules: Seq<ExchangeRule>,
    sub: int,
    x: int,
    y: int,
    z: int,
    c: CellShape,
)
    requires
        c.p0,
        c.p1,
        c.p2,
        forall|r: int|
            0 <= r < rules.len() ==> (#[trigger] rules[r]).to_sub < c.subs,
    ensures
        rules_entries(rules, sub, x, y, z, c).len() == matching_offsets(rules, sub),
    decreases rules.len(),
{
    if rules.len() > 0 {
        assert forall|r: int| 0 <= r < rules.drop_last().len() implies (
        #[trigger] rules.drop_last()[r]).to_sub < c.subs by {
            assert(rules.drop_last()[r] == rules[r]);
        }
        lemma_rules_entries_len_periodic(rules.drop_last(), sub, x, y, z, c);
        let rule = rules.last();
        assert(rule == rules[rules.len() - 1]);
        if rule.from_sub as int == sub {
            lemma_offsets_entries_len_periodic(
                rule.offsets@,
                rule.to_sub as int,
                rule.strength,
                x,
                y,
                z,
                c,
            );
        }
    }
}

/// A matching offset whose target drops makes the whole list's contribution
/// strictly smaller than the matching-offset count.
proof fn lemma_rules_entries_len_lt(
    rules: Seq<ExchangeRule>,
    sub: int,
    r: int,
    k: int,
    x: int,
    y: int,
    z: int,
    c: CellShape,
)
    requires
        0 <= r < rules.len(),
        rules[r].from_sub as int == sub,
        0 <= k < rules[r].offsets@.len(),
        offset_target(rules[r].offsets@[k], rules[r].to_sub as int, x, y, z, c) is None,
    ensures
        rules_entries(rules, sub, x, y, z, c).len() < matching_offsets(rules, sub),
    decreases rules.len(),
{
    let rule = rules.last();
    if r == rules.len() - 1 {
        lemma_rules_entries_len_le(rules.drop_last(), sub, x, y, z, c);
        lemma_offsets_entries_len_lt(
            rule.offsets@,
            k,
            rule.to_sub as int,
            rule.strength,
            x,
            y,
            z,
            c,
        );
    } else {
        assert(rules.drop_last()[r] == rules[r]);
        lemma_rules_entries_len_lt(rules.drop_last(), sub, r, k, x, y, z, c);
        if rule.from_sub as int == sub {
            lemma_offsets_entries_len_le(
                rule.offsets@,
                rule.to_sub as int,
                rule.strength,
                x,
                y,
                z,
                c,
            );
        }
    }
}


/// When every offset of the list resolves at a site — as at interior sites
/// under open boundaries — the contribution is one entry per offset.
proof fn lemma_offsets_entries_len_all_resolve(
    offs: Seq<[isize; 3]>,
    to_sub: int,
    strength: u64,
    x: int,
    y: int,
    z: int,
    c: CellShape,
)
    requires
        forall|k: int|
            0 <= k < offs.len() ==> offset_target(#[trigger] offs[k], to_sub, x, y, z, c) is Some,
    ensures
        offsets_entries(offs, to_sub, strength, x, y, z, c).len() == offs.len(),
    decreases offs.len(),
{
    if offs.len() > 0 {
        assert forall|k: int|
            0 <= k < offs.drop_last().len() implies offset_target(
            #[trigger] offs.drop_last()[k],
            to_sub,
            x,
            y,
            z,
            c,
        ) is Some by {
            assert(offs.drop_last()[k] == offs[k]);
        }
        lemma_offsets_entries_len_all_resolve(offs.drop_last(), to_sub, strength, x, y, z, c);
        assert(offs.last() == offs[offs.len() - 1]);
    }
}

/// When every matching offset of the rule list resolves at a site, the
/// list contributes exactly one entry per matching offset.
proof fn lemma_rules_entries_len_all_resolve(
    rules: Seq<ExchangeRule>,
    sub: int,
    x: int,
    y: int,
    z: int,
    c: CellShape,
)
    requires
        forall|r: int, k: int|
            #![trigger rules[r].offsets@[k]]
            0 <= r < rules.len() && rules[r].from_sub as int == sub && 0 <= k < rules[
                r].offsets@.len() ==> offset_target(
                rules[r].offsets@[k],
                rules[r].to_sub as int,
                x,
                y,
                z,
                c,
            ) is Some,
    ensures
        rules_entries(rules, sub, x, y, z, c).len() == matching_offsets(rules, sub),
    decreases rules.len(),
{
    if rules.len() > 0 {
        assert forall|r: int, k: int|
            #![trigger rules.drop_last()[r].offsets@[k]]
            0 <= r < rules.drop_last().len() && rules.drop_last()[r].from_sub as int == sub && 0
                <= k < rules.drop_last()[r].offsets@.len() implies offset_target(
            rules.drop_last()[r].offsets@[k],
            rules.drop_last()[r].to_sub as int,
            x,
            y,
            z,
            c,
        ) is Some by {
            assert(rules.drop_last()[r] == rules[r]);
        }
        lemma_rules_entries_len_all_resolve(rules.drop_last(), sub, x, y, z, c);
        let rule = rules.last();
        assert(rule == rules[rules.len() - 1]);
        if rule.from_sub as int == sub {
            assert forall|k: int|
                0 <= k < rule.offsets@.len() implies offset_target(
                #[trigger] rule.offsets@[k],
                rule.to_sub as int,
                x,
                y,
                z,
                c,
            ) is Some by {}
            lemma_offsets_entries_len_all_resolve(
                rule.offsets@,
                rule.to_sub as int,
                rule.strength,
                x,
                y,
                z,
                c,
            );
        }
    }
}

impl Lattice {
    /// A site at which every matching rule offset resolves — every interior
    /// site of an open-boundary lattice, in particular — keeps exactly the
    /// neighbor count its matching rule offsets imply: only a target that
    /// leaves the cell over an open boundary or the basis is ever dropped.
    pub proof fn lemma_full_neighbor_count_when_all_resolve(&self, i: int)
        requires
            self.wf(),
            0 <= i < self.size,
            forall|r: int, k: int|
                #![trigger self.rules@[r].offsets@[k]]
                0 <= r < self.rules@.len() && self.rules@[r].from_sub as int == site_sub(
                    i,
                    self.dim@[0] as int,
                    self.dim@[1] as int,
                    self.dim@[2] as int,
                ) && 0 <= k < self.rules@[r].offsets@.len() ==> offset_target(
                    self.rules@[r].offsets@[k],
                    self.rules@[r].to_sub as int,
                    site_x(i, self.dim@[0] as int, self.dim@[1] as int, self.dim@[2] as int),
                    site_y(i, self.dim@[0] as int, self.dim@[1] as int, self.dim@[2] as int),
                    site_z(i, self.dim@[0] as int, self.dim@[1] as int, self.dim@[2] as int),
                    self.cell(),
                ) is Some,
        ensures
            self.neighbors@[i]@.len() == matching_offsets(
                self.rules@,
                site_sub(i, self.dim@[0] as int, self.dim@[1] as int, self.dim@[2] as int),
            ),
    {
        let c = self.cell();
        lemma_rules_entries_len_all_resolve(
            self.rules@,
            site_sub(i, c.d0, c.d1, c.d2),
            site_x(i, c.d0, c.d1, c.d2),
            site_y(i, c.d0, c.d1, c.d2),
            site_z(i, c.d0, c.d1, c.d2),
            c,
        );
    }

    /// On a fully periodic lattice whose rules all target in-basis
    /// sublattices, every site has exactly the neighbor count its matching
    /// rule offsets imply.
    pub proof fn lemma_periodic_neighbor_count(&self, i: int)
        requires
            self.wf(),
            self.pbc@[0],
            self.pbc@[1],
            self.pbc@[2],
            forall|r: int|
                0 <= r < self.rules@.len() ==> (#[trigger] self.rules@[r]).to_sub
                    < self.sublattices,
            0 <= i < self.size,
        ensures
            self.neighbors@[i]@.len() == matching_offsets(
                self.rules@,
                site_sub(i, self.dim@[0] as int, self.dim@[1] as int, self.dim@[2] as int),
            ),
    {
        let c = self.cell();
        lemma_rules_entries_len_periodic(
            self.rules@,
            site_sub(i, c.d0, c.d1, c.d2),
            site_x(i, c.d0, c.d1, c.d2),
            site_y(i, c.d0, c.d1, c.d2),
            site_z(i, c.d0, c.d1, c.d2),
            c,
        );
    }

    /// No site ever has more neighbors than its matching rule offsets imply.
    pub proof fn lemma_neighbor_count_at_most(&self, i: int)
        requires
            self.wf(),
            0 <= i < self.size,
        ensures
            self.neighbors@[i]@.len() <= matching_offsets(
                self.rules@,
                site_sub(i, self.dim@[0] as int, self.dim@[1] as int, self.dim@[2] as int),
            ),
    {
        let c = self.cell();
        lemma_rules_entries_len_le(
            self.rules@,
            site_sub(i, c.d0, c.d1, c.d2),
            site_x(i, c.d0, c.d1, c.d2),
            site_y(i, c.d0, c.d1, c.d2),
            site_z(i, c.d0, c.d1, c.d2),
            c,
        );
    }

    /// A site with a matching offset whose target drops — as at the surface
    /// of an open boundary — has strictly fewer neighbors than the rule set
    /// implies.
    pub proof fn lemma_dropped_offset_fewer_neighbors(&self, i: int, r: int, k: int)
        requires
            self.wf(),
            0 <= i < self.size,
            0 <= r < self.rules@.len(),
            self.rules@[r].from_sub as int == site_sub(
                i,
                self.dim@[0] as int,
                self.dim@[1] as int,
                self.dim@[2] as int,
            ),
            0 <= k < self.rules@[r].offsets@.len(),
            offset_target(
                self.rules@[r].offsets@[k],
                self.rules@[r].to_sub as int,
                site_x(i, self.dim@[0] as int, self.dim@[1] as int, self.dim@[2] as int),
                site_y(i, self.dim@[0] as int, self.dim@[1] as int, self.dim@[2] as int),
                site_z(i, self.dim@[0] as int, self.dim@[1] as int, self.dim@[2] as int),
                self.cell(),
            ) is None,
        ensures
            self.neighbors@[i]@.len() < matching_offsets(
                self.rules@,
                site_sub(i, self.dim@[0] as int, self.dim@[1] as int, self.dim@[2] as int),
            ),
    {
        let c = self.cell();
        lemma_rules_entries_len_lt(
            self.rules@,
            site_sub(i, c.d0, c.d1, c.d2),
            r,
            k,
            site_x(i, c.d0, c.d1, c.d2),
            site_y(i, c.d0, c.d1, c.d2),
            site_z(i, c.d0, c.d1, c.d2),
            c,
        );
    }
}

} // verus!
