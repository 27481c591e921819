use rand::SeedableRng;
use rand_pcg::Pcg64Mcg;
use spinmc::lattice::{ExchangeRule, Lattice};
use spinmc::metropolis::metropolis_site;
use spinmc::spins::SpinArray;
use spinmc::wolff::WolffCluster;

fn cubic_lattice(dim: [usize; 3], pbc: [bool; 3]) -> Lattice {
    let rules = vec![ExchangeRule {
        from_sub: 0,
        to_sub: 0,
        offsets: vec![
            [1, 0, 0],
            [-1, 0, 0],
            [0, 1, 0],
            [0, -1, 0],
            [0, 0, 1],
            [0, 0, -1],
        ],
        strength: 1.0f64.to_bits(),
    }];
    Lattice::build(dim, 1, pbc, rules, &vec![]).unwrap()
}

#[test]
fn metropolis_apply_changes_only_the_chosen_site() {
    let mut spins = SpinArray::from_vec(vec![1.0f64, -1.0, 1.0, 1.0]);
    let changed = spins.metropolis_apply(2, -1.0, false);
    assert_eq!(changed, 0);
    assert_eq!(spins.spins, vec![1.0, -1.0, 1.0, 1.0]);
    let changed = spins.metropolis_apply(2, -1.0, true);
    assert_eq!(changed, 1);
    assert_eq!(spins.spins, vec![1.0, -1.0, -1.0, 1.0]);
}

#[test]
fn apply_flips_touches_exactly_the_cluster() {
    let mut spins = SpinArray::from_vec(vec![1.0f64, 2.0, 3.0, 4.0, 5.0]);
    let cluster = vec![4usize, 1, 2];
    let flipped = vec![-5.0f64, -2.0, -3.0];
    let changed = spins.apply_flips(&cluster, &flipped);
    assert_eq!(changed, 3);
    assert_eq!(spins.spins, vec![1.0, -2.0, -3.0, 4.0, -5.0]);
}

#[test]
fn metropolis_site_stays_in_range() {
    // Through the public site picker, the random index the generator hands
    // back is always a valid site.
    let lat = Lattice::build([3, 2, 1], 1, [true, true, true], vec![], &vec![]).unwrap();
    let mut rng = Pcg64Mcg::seed_from_u64(11);
    let mut seen = vec![false; lat.size];
    for _ in 0..2000 {
        let site = metropolis_site(&lat, &mut rng);
        assert!(site < lat.size);
        seen[site] = true;
    }
    // A uniform picker over six sites visits every site in 2000 draws.
    assert!(seen.iter().all(|&v| v));
}

#[test]
fn wolff_accepting_every_bond_takes_the_whole_lattice() {
    let lat = cubic_lattice([3, 3, 3], [true, true, true]);
    let mut rng = Pcg64Mcg::seed_from_u64(5);
    let mut w = WolffCluster::begin(&lat, &mut rng);
    while let Some((site, entry)) = w.next_bond(&lat) {
        assert!(site < lat.size);
        assert!(entry.site < lat.size);
        w.resolve(&lat, true);
    }
    let cluster = w.into_cluster(&lat);
    assert_eq!(cluster.len(), lat.size);
    let mut seen = vec![false; lat.size];
    for &s in &cluster {
        assert!(!seen[s], "a site joined the cluster twice");
        seen[s] = true;
    }
    assert!(seen.iter().all(|&v| v));
}

#[test]
fn wolff_rejecting_every_bond_keeps_one_site() {
    let lat = cubic_lattice([3, 3, 3], [true, true, true]);
    let mut rng = Pcg64Mcg::seed_from_u64(5);
    let mut w = WolffCluster::begin(&lat, &mut rng);
    assert_eq!(w.cluster_size(), 1);
    while let Some(_) = w.next_bond(&lat) {
        w.resolve(&lat, false);
    }
    let cluster = w.into_cluster(&lat);
    assert_eq!(cluster.len(), 1);
}

#[test]
fn wolff_never_offers_a_bond_into_the_cluster_twice() {
    // Each offered bond targets a site not yet taken; accepting each one
    // keeps cluster growth duplicate-free even on a wrapping lattice.
    let rules = vec![ExchangeRule {
        from_sub: 0,
        to_sub: 0,
        offsets: vec![[1, 0, 0], [0, 1, 0], [0, -1, 0]],
        strength: 1.0f64.to_bits(),
    }];
    let lat = Lattice::build([2, 3, 1], 1, [true, true, false], rules, &vec![]).unwrap();
    let mut rng = Pcg64Mcg::seed_from_u64(77);
    let mut w = WolffCluster::begin(&lat, &mut rng);
    let mut taken = vec![false; lat.size];
    let mut offered_targets = Vec::new();
    while let Some((_, entry)) = w.next_bond(&lat) {
        offered_targets.push(entry.site);
        assert!(!taken[entry.site], "an already-taken site was offered");
        taken[entry.site] = true;
        w.resolve(&lat, true);
    }
    let cluster = w.into_cluster(&lat);
    assert_eq!(cluster.len(), lat.size);
    assert_eq!(offered_targets.len(), lat.size - 1);
}

#[test]
fn spins_are_addressable_by_coordinate() {
    let lat = Lattice::build([2, 2, 1], 2, [true, true, true], vec![], &vec![]).unwrap();
    let values: Vec<f64> = (0..lat.size).map(|i| i as f64).collect();
    let spins = SpinArray::from_vec(values);
    // Index 5 is sublattice 1, cell (0, 1, 0): 1 * 4 + 0 + 2 * 1 + 0.
    assert_eq!(spins.get_spin_by_coord(&lat, 1, 0, 1, 0), Some(&5.0));
    assert_eq!(spins.get_spin_by_coord(&lat, 0, 0, 0, 0), Some(&0.0));
    assert_eq!(spins.get_spin_by_coord(&lat, 2, 0, 0, 0), None);
    assert_eq!(spins.get_spin_by_coord(&lat, 0, 2, 0, 0), None);
    assert_eq!(spins.get_spin_by_coord(&lat, 0, -1, 0, 0), None);
}

#[test]
fn wolff_cluster_is_connected_and_contains_the_seed() {
    // Members beyond the seed join only as accepted bond targets, so every
    // cluster is connected in the exchange-neighbor graph.
    let lat = cubic_lattice([3, 3, 3], [true, true, true]);
    let mut rng = Pcg64Mcg::seed_from_u64(123);
    for _ in 0..25 {
        let mut w = WolffCluster::begin(&lat, &mut rng);
        while let Some(_) = w.next_bond(&lat) {
            let accept = rand::RngExt::random::<f64>(&mut rng) < 0.5;
            w.resolve(&lat, accept);
        }
        let cluster = w.into_cluster(&lat);
        let mut member = vec![false; lat.size];
        for &s in &cluster {
            member[s] = true;
        }
        // Breadth-first search over lattice edges, restricted to members,
        // from the seed (the first member taken).
        let mut reached = vec![false; lat.size];
        let mut frontier = vec![cluster[0]];
        reached[cluster[0]] = true;
        let mut count = 1usize;
        while let Some(site) = frontier.pop() {
            for e in &lat.neighbors[site] {
                if member[e.site] && !reached[e.site] {
                    reached[e.site] = true;
                    count += 1;
                    frontier.push(e.site);
                }
            }
        }
        assert_eq!(count, cluster.len(), "a cluster was not connected");
    }
}
