use spinmc::error::ConfigError;
use spinmc::lattice::{ExchangeRule, Lattice};
use spinmc::topology::{coord_to_index, index_to_coord, safe_coord_to_index};

fn cubic_rule(offsets: Vec<[isize; 3]>, j: f64) -> ExchangeRule {
    ExchangeRule {
        from_sub: 0,
        to_sub: 0,
        offsets,
        strength: j.to_bits(),
    }
}

fn six_offsets() -> Vec<[isize; 3]> {
    vec![
        [1, 0, 0],
        [-1, 0, 0],
        [0, 1, 0],
        [0, -1, 0],
        [0, 0, 1],
        [0, 0, -1],
    ]
}

#[test]
fn linear_index_is_dense_and_bijective() {
    let dim = [3usize, 4, 5];
    let sublattices = 2usize;
    let mut seen = vec![false; 3 * 4 * 5 * 2];
    for sub in 0..sublattices {
        for x in 0..dim[0] {
            for y in 0..dim[1] {
                for z in 0..dim[2] {
                    let i = coord_to_index([x as isize, y as isize, z as isize], sub, dim);
                    assert!(i < seen.len());
                    assert!(!seen[i], "two coordinates map to one index");
                    seen[i] = true;
                    assert_eq!(index_to_coord(i, dim, sublattices), (sub, x, y, z));
                }
            }
        }
    }
    assert!(seen.iter().all(|&v| v));
}

#[test]
fn coord_to_index_matches_row_major_order() {
    let dim = [2usize, 3, 4];
    assert_eq!(coord_to_index([0, 0, 0], 0, dim), 0);
    assert_eq!(coord_to_index([0, 0, 1], 0, dim), 1);
    assert_eq!(coord_to_index([0, 1, 0], 0, dim), 4);
    assert_eq!(coord_to_index([1, 0, 0], 0, dim), 12);
    assert_eq!(coord_to_index([0, 0, 0], 1, dim), 24);
    assert_eq!(coord_to_index([1, 2, 3], 1, dim), 24 + 12 + 8 + 3);
}

#[test]
fn safe_coord_wraps_on_periodic_axes() {
    let dim = [4usize, 4, 4];
    let pbc = [true, true, true];
    assert_eq!(
        safe_coord_to_index([-1, 0, 0], 0, dim, 1, pbc),
        Some(coord_to_index([3, 0, 0], 0, dim))
    );
    assert_eq!(
        safe_coord_to_index([4, 2, 0], 0, dim, 1, pbc),
        Some(coord_to_index([0, 2, 0], 0, dim))
    );
    // Offsets far outside the cell wrap by true modulus.
    assert_eq!(
        safe_coord_to_index([-9, 0, 11], 0, dim, 1, pbc),
        Some(coord_to_index([3, 0, 3], 0, dim))
    );
}

#[test]
fn safe_coord_drops_on_open_axes() {
    let dim = [4usize, 4, 4];
    let pbc = [false, true, true];
    assert_eq!(safe_coord_to_index([-1, 0, 0], 0, dim, 1, pbc), None);
    assert_eq!(safe_coord_to_index([4, 0, 0], 0, dim, 1, pbc), None);
    assert_eq!(
        safe_coord_to_index([0, -1, 0], 0, dim, 1, pbc),
        Some(coord_to_index([0, 3, 0], 0, dim))
    );
}

#[test]
fn safe_coord_rejects_sublattice_outside_basis() {
    let dim = [4usize, 4, 4];
    assert_eq!(
        safe_coord_to_index([0, 0, 0], 2, dim, 2, [true, true, true]),
        None
    );
    assert!(safe_coord_to_index([0, 0, 0], 1, dim, 2, [true, true, true]).is_some());
}

#[test]
fn periodic_lattice_has_full_neighbor_count() {
    // Every site of a fully periodic lattice has exactly one neighbor per
    // matching rule offset.
    let rules = vec![cubic_rule(six_offsets(), 1.0)];
    let lat = Lattice::build([4, 4, 4], 1, [true, true, true], rules, &vec![]).unwrap();
    assert_eq!(lat.size, 64);
    assert_eq!(lat.neighbors.len(), 64);
    for list in &lat.neighbors {
        assert_eq!(list.len(), 6);
    }
}

#[test]
fn open_lattice_has_fewer_neighbors_at_the_surface() {
    let rules = vec![cubic_rule(six_offsets(), 1.0)];
    let lat = Lattice::build([4, 4, 4], 1, [false, false, false], rules, &vec![]).unwrap();
    // The interior still sees all six neighbors; corners lose three.
    let interior = coord_to_index([1, 1, 1], 0, [4, 4, 4]);
    let corner = coord_to_index([0, 0, 0], 0, [4, 4, 4]);
    let face = coord_to_index([0, 1, 1], 0, [4, 4, 4]);
    assert_eq!(lat.neighbors[interior].len(), 6);
    assert_eq!(lat.neighbors[corner].len(), 3);
    assert_eq!(lat.neighbors[face].len(), 5);
    // Strictly fewer at every surface site.
    for x in 0..4usize {
        for y in 0..4usize {
            for z in 0..4usize {
                let i = coord_to_index([x as isize, y as isize, z as isize], 0, [4, 4, 4]);
                let surface =
                    [x, y, z].iter().any(|&c| c == 0 || c == 3);
                if surface {
                    assert!(lat.neighbors[i].len() < 6);
                } else {
                    assert_eq!(lat.neighbors[i].len(), 6);
                }
            }
        }
    }
}

#[test]
fn parallel_bonds_to_one_target_fail_validation() {
    // On a cell of extent two, a +x and a -x offset reach the same site:
    // two parallel bonds between one ordered pair.
    let rules = vec![cubic_rule(vec![[1, 0, 0], [-1, 0, 0]], 1.0)];
    let r = Lattice::build([2, 4, 4], 1, [true, true, true], rules, &vec![]);
    // Every site doubles its +x and -x targets; the first is reported.
    assert!(matches!(r, Err(ConfigError::DuplicateNeighbor { site: 0 })));
}

#[test]
fn repeated_offset_fails_validation() {
    let rules = vec![cubic_rule(vec![[1, 0, 0], [1, 0, 0]], 1.0)];
    let r = Lattice::build([4, 4, 4], 1, [true, true, true], rules, &vec![]);
    assert!(matches!(r, Err(ConfigError::DuplicateNeighbor { .. })));
}

#[test]
fn neighbor_lists_follow_rule_order_with_couplings() {
    let rules = vec![
        ExchangeRule {
            from_sub: 0,
            to_sub: 1,
            offsets: vec![[0, 0, 0]],
            strength: 2.5f64.to_bits(),
        },
        ExchangeRule {
            from_sub: 0,
            to_sub: 0,
            offsets: vec![[1, 0, 0]],
            strength: (-1.0f64).to_bits(),
        },
    ];
    let dim = [3usize, 1, 1];
    let lat = Lattice::build(dim, 2, [true, false, false], rules, &vec![]).unwrap();
    let origin = coord_to_index([0, 0, 0], 0, dim);
    let list = &lat.neighbors[origin];
    assert_eq!(list.len(), 2);
    assert_eq!(list[0].site, coord_to_index([0, 0, 0], 1, dim));
    assert_eq!(f64::from_bits(list[0].strength), 2.5);
    assert_eq!(list[1].site, coord_to_index([1, 0, 0], 0, dim));
    assert_eq!(f64::from_bits(list[1].strength), -1.0);
    // Sites on the second sublattice match no rule source.
    let other = coord_to_index([0, 0, 0], 1, dim);
    assert_eq!(lat.neighbors[other].len(), 0);
}

#[test]
fn symmetric_rules_give_mirrored_edges() {
    // Under a symmetric rule set every directed bond appears from both
    // endpoints with the same coupling — the double-counting behind the
    // half-sum total energy.
    let rules = vec![cubic_rule(six_offsets(), 0.75)];
    let lat = Lattice::build([3, 3, 3], 1, [true, false, true], rules, &vec![]).unwrap();
    for (i, list) in lat.neighbors.iter().enumerate() {
        for e in list {
            let reverse = &lat.neighbors[e.site];
            let matches = reverse
                .iter()
                .filter(|b| b.site == i && b.strength == e.strength)
                .count();
            assert_eq!(matches, 1);
        }
    }
}

#[test]
fn group_index_collects_sublattice_blocks() {
    let rules: Vec<ExchangeRule> = vec![];
    let groups = vec![vec![1], vec![0, 1]];
    let dim = [2usize, 2, 1];
    let lat = Lattice::build(dim, 2, [true, true, true], rules, &groups).unwrap();
    assert_eq!(lat.group_index.len(), 2);
    assert_eq!(lat.group_index[0], (4..8).collect::<Vec<usize>>());
    assert_eq!(lat.group_index[1], (0..8).collect::<Vec<usize>>());
}
