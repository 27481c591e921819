use rand::{RngExt, SeedableRng};
use rand_pcg::Pcg64Mcg;
use spinmc::lattice::{ExchangeRule, Lattice};
use spinmc::metropolis::metropolis_site;
use spinmc::spins::SpinArray;
use spinmc::wolff::WolffCluster;

// The numeric side of an Ising run: orientations are `f64` values of
// magnitude one, couplings are decoded from the lattice's coupling words,
// and the update decisions feed the library's verified machinery.

fn coupling(bits: u64) -> f64 {
    f64::from_bits(bits)
}

fn local_field(lat: &Lattice, spins: &SpinArray<f64>, i: usize) -> f64 {
    lat.neighbors[i]
        .iter()
        .map(|e| coupling(e.strength) * spins.spins[e.site])
        .sum()
}

fn total_energy(lat: &Lattice, spins: &SpinArray<f64>) -> f64 {
    let per_site: f64 = (0..lat.size)
        .map(|i| -spins.spins[i] * local_field(lat, spins, i))
        .sum();
    per_site / 2.0
}

fn magnetization(spins: &SpinArray<f64>) -> f64 {
    spins.spins.iter().sum()
}

fn metropolis_step(lat: &Lattice, spins: &mut SpinArray<f64>, beta: f64, rng: &mut Pcg64Mcg) {
    let site = metropolis_site(lat, rng);
    let s = spins.spins[site];
    let delta_e = 2.0 * s * local_field(lat, spins, site);
    let accept = delta_e <= 0.0 || rng.random::<f64>() < (-beta * delta_e).exp();
    spins.metropolis_apply(site, -s, accept);
}

fn wolff_step(lat: &Lattice, spins: &mut SpinArray<f64>, beta: f64, rng: &mut Pcg64Mcg) -> usize {
    let mut w = WolffCluster::begin(lat, rng);
    while let Some((site, entry)) = w.next_bond(lat) {
        let j = coupling(entry.strength);
        let p = 1.0 - (-2.0 * beta * j * spins.spins[site] * spins.spins[entry.site]).exp();
        let accept = p > 0.0 && rng.random::<f64>() < p;
        w.resolve(lat, accept);
    }
    let cluster = w.into_cluster(lat);
    let flipped: Vec<f64> = cluster.iter().map(|&i| -spins.spins[i]).collect();
    spins.apply_flips(&cluster, &flipped)
}

fn all_up(n: usize) -> SpinArray<f64> {
    SpinArray::from_vec(vec![1.0; n])
}

fn cubic_rule(offsets: Vec<[isize; 3]>, j: f64) -> ExchangeRule {
    ExchangeRule {
        from_sub: 0,
        to_sub: 0,
        offsets,
        strength: j.to_bits(),
    }
}

/// A 2x2x2 periodic cubic cell. At extent two a `+axis` and a `-axis`
/// offset reach the same site and would be rejected as parallel bonds, so
/// the nearest-neighbor rule uses the three positive offsets: every bond of
/// the cube appears from both endpoints, and each site has three neighbors.
fn small_cube() -> Lattice {
    let rules = vec![cubic_rule(vec![[1, 0, 0], [0, 1, 0], [0, 0, 1]], 1.0)];
    Lattice::build([2, 2, 2], 1, [true, true, true], rules, &vec![]).unwrap()
}

#[test]
fn total_energy_equals_direct_bond_sum() {
    // The half-sum of per-site local energies equals a direct loop over
    // unordered bonds, because a symmetric rule set shows every bond from
    // both endpoints with the same coupling.
    let rules = vec![cubic_rule(
        vec![
            [1, 0, 0],
            [-1, 0, 0],
            [0, 1, 0],
            [0, -1, 0],
            [0, 0, 1],
            [0, 0, -1],
        ],
        0.75,
    )];
    let lat = Lattice::build([3, 3, 3], 1, [true, false, true], rules, &vec![]).unwrap();
    let mut rng = Pcg64Mcg::seed_from_u64(2024);
    let spins = SpinArray::from_vec(
        (0..lat.size)
            .map(|_| if rng.random::<f64>() < 0.5 { 1.0 } else { -1.0 })
            .collect(),
    );
    let half_sum = total_energy(&lat, &spins);
    let mut bond_sum = 0.0;
    for i in 0..lat.size {
        for e in &lat.neighbors[i] {
            if e.site > i {
                bond_sum += -coupling(e.strength) * spins.spins[i] * spins.spins[e.site];
            }
        }
    }
    assert!((half_sum - bond_sum).abs() < 1e-9);
}

#[test]
fn metropolis_occupation_matches_boltzmann() {
    // Two open-chain Ising sites at beta = 1: long-run state occupation
    // converges to the Boltzmann weights of the four states.
    let rules = vec![cubic_rule(vec![[1, 0, 0], [-1, 0, 0]], 1.0)];
    let lat = Lattice::build([2, 1, 1], 1, [false, false, false], rules, &vec![]).unwrap();
    let beta = 1.0;
    let mut rng = Pcg64Mcg::seed_from_u64(7);
    let mut spins = all_up(lat.size);
    for _ in 0..10_000 {
        metropolis_step(&lat, &mut spins, beta, &mut rng);
    }
    let mut counts = [0u64; 4];
    let samples = 400_000u64;
    for _ in 0..samples {
        metropolis_step(&lat, &mut spins, beta, &mut rng);
        let state = (if spins.spins[0] > 0.0 { 2 } else { 0 })
            + (if spins.spins[1] > 0.0 { 1 } else { 0 });
        counts[state] += 1;
    }
    let e = std::f64::consts::E;
    let z = 2.0 * e + 2.0 / e;
    let p_aligned = e / z;
    let p_opposed = (1.0 / e) / z;
    let freq = |c: u64| c as f64 / samples as f64;
    assert!((freq(counts[3]) - p_aligned).abs() < 0.02);
    assert!((freq(counts[0]) - p_aligned).abs() < 0.02);
    assert!((freq(counts[1]) - p_opposed).abs() < 0.02);
    assert!((freq(counts[2]) - p_opposed).abs() < 0.02);
}

#[test]
fn metropolis_and_wolff_agree_on_observables() {
    // One lattice, one temperature, both algorithms: mean energy and mean
    // absolute magnetization per site agree within statistical error.
    let rules = vec![cubic_rule(
        vec![[1, 0, 0], [-1, 0, 0], [0, 1, 0], [0, -1, 0]],
        1.0,
    )];
    let dim = [4usize, 4, 1];
    let beta = 0.2;
    let lat = Lattice::build(dim, 1, [true, true, false], rules, &vec![]).unwrap();
    let n = lat.size as f64;

    let mut rng = Pcg64Mcg::seed_from_u64(31);
    let mut spins = all_up(lat.size);
    for _ in 0..50_000 {
        metropolis_step(&lat, &mut spins, beta, &mut rng);
    }
    let mut e_sum = 0.0;
    let mut m_sum = 0.0;
    let samples = 40_000;
    for _ in 0..samples {
        for _ in 0..8 {
            metropolis_step(&lat, &mut spins, beta, &mut rng);
        }
        e_sum += total_energy(&lat, &spins);
        m_sum += magnetization(&spins).abs();
    }
    let metro_e = e_sum / samples as f64 / n;
    let metro_m = m_sum / samples as f64 / n;

    let mut rng = Pcg64Mcg::seed_from_u64(32);
    let mut spins = all_up(lat.size);
    for _ in 0..5_000 {
        wolff_step(&lat, &mut spins, beta, &mut rng);
    }
    let mut e_sum = 0.0;
    let mut m_sum = 0.0;
    let wolff_samples = 40_000;
    for _ in 0..wolff_samples {
        wolff_step(&lat, &mut spins, beta, &mut rng);
        e_sum += total_energy(&lat, &spins);
        m_sum += magnetization(&spins).abs();
    }
    let wolff_e = e_sum / wolff_samples as f64 / n;
    let wolff_m = m_sum / wolff_samples as f64 / n;

    assert!(
        (metro_e - wolff_e).abs() < 0.05,
        "energy per site differs: {metro_e} vs {wolff_e}"
    );
    assert!(
        (metro_m - wolff_m).abs() < 0.05,
        "magnetization per site differs: {metro_m} vs {wolff_m}"
    );
}

#[test]
fn low_temperature_orders_high_temperature_disorders() {
    // The end-to-end scenario: a periodic single-sublattice cubic Ising
    // cell with one nearest-neighbor rule under Metropolis. Cold, the
    // magnetization per site saturates; hot, energy and magnetization per
    // site head toward zero.
    let lat = small_cube();
    let n = lat.size as f64;

    let run = |beta: f64, seed: u64| -> (f64, f64) {
        let mut rng = Pcg64Mcg::seed_from_u64(seed);
        let mut spins = all_up(lat.size);
        for _ in 0..20_000 {
            metropolis_step(&lat, &mut spins, beta, &mut rng);
        }
        let mut e_sum = 0.0;
        let mut m_sum = 0.0;
        let samples = 30_000;
        for _ in 0..samples {
            for _ in 0..4 {
                metropolis_step(&lat, &mut spins, beta, &mut rng);
            }
            e_sum += total_energy(&lat, &spins);
            m_sum += magnetization(&spins).abs();
        }
        (e_sum / samples as f64 / n, m_sum / samples as f64 / n)
    };

    // T well below J/k_B.
    let (cold_e, cold_m) = run(2.0, 41);
    // T well above J/k_B.
    let (hot_e, hot_m) = run(0.02, 42);

    assert!(cold_m > 0.9, "cold magnetization per site was {cold_m}");
    assert!(cold_e < -1.2, "cold energy per site was {cold_e}");
    assert!(hot_m < 0.6, "hot magnetization per site was {hot_m}");
    assert!(hot_e > -0.5, "hot energy per site was {hot_e}");
    assert!(hot_e.abs() < 0.5);
}

#[test]
fn wolff_also_orders_at_low_temperature() {
    let lat = small_cube();
    let n = lat.size as f64;
    let beta = 2.0;
    let mut rng = Pcg64Mcg::seed_from_u64(9);
    let mut spins = all_up(lat.size);
    for _ in 0..2_000 {
        wolff_step(&lat, &mut spins, beta, &mut rng);
    }
    let mut m_sum = 0.0;
    let samples = 20_000;
    for _ in 0..samples {
        wolff_step(&lat, &mut spins, beta, &mut rng);
        m_sum += magnetization(&spins).abs();
    }
    let m = m_sum / samples as f64 / n;
    assert!(m > 0.9, "magnetization per site was {m}");
}
