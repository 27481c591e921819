use spinmc::config::{
    check_algorithm_compatibility, classify_exchange_rule, resolve_temperature_mode, Algorithm,
    ExchangeRuleKind, Model, Output, TemperatureMode,
};
use spinmc::error::ConfigError;
use spinmc::hamiltonian::{Hamiltonian, HamiltonianConfig};
use spinmc::snapshots::Snapshots;
use spinmc::stats::{recorded_sample_count, should_record, StatsConfig};

fn output_with(group: Option<Vec<Vec<usize>>>, group_mag: Option<bool>) -> Output {
    Output {
        outfile: String::from("out.dat"),
        energy: Some(true),
        heat_capacity: None,
        magnetization: None,
        susceptibility: None,
        magnetization_abs: None,
        susceptibility_abs: None,
        group_magnetization: group_mag,
        group_susceptibility: None,
        group,
        stats_interval: Some(1),
    }
}

#[test]
fn temperature_list_alone_is_explicit() {
    assert_eq!(
        resolve_temperature_mode(true, false, false, false),
        Ok(TemperatureMode::Explicit)
    );
}

#[test]
fn temperature_triple_alone_is_sweep() {
    assert_eq!(
        resolve_temperature_mode(false, true, true, true),
        Ok(TemperatureMode::Sweep)
    );
}

#[test]
fn temperature_list_and_triple_conflict() {
    assert_eq!(
        resolve_temperature_mode(true, true, false, false),
        Err(ConfigError::TemperatureConflict)
    );
    assert_eq!(
        resolve_temperature_mode(true, false, false, true),
        Err(ConfigError::TemperatureConflict)
    );
}

#[test]
fn temperature_nothing_given_is_missing() {
    assert_eq!(
        resolve_temperature_mode(false, false, false, false),
        Err(ConfigError::TemperatureMissing)
    );
}

#[test]
fn temperature_partial_triple_is_incomplete() {
    assert_eq!(
        resolve_temperature_mode(false, true, false, true),
        Err(ConfigError::TemperatureIncomplete)
    );
    assert_eq!(
        resolve_temperature_mode(false, false, false, true),
        Err(ConfigError::TemperatureIncomplete)
    );
}

#[test]
fn exchange_rule_classification() {
    assert_eq!(
        classify_exchange_rule(true, true, true, false, false),
        Ok(ExchangeRuleKind::Explicit)
    );
    assert_eq!(
        classify_exchange_rule(true, true, true, true, true),
        Err(ConfigError::ExchangeOffsetsAndOrder)
    );
    assert_eq!(
        classify_exchange_rule(true, true, false, false, false),
        Err(ConfigError::ExchangeOffsetsMissing)
    );
    assert_eq!(
        classify_exchange_rule(true, true, false, true, false),
        Err(ConfigError::ExchangeStructureMissing)
    );
    assert_eq!(
        classify_exchange_rule(true, false, true, false, false),
        Err(ConfigError::ExchangeEndpointsMissing)
    );
    assert_eq!(
        classify_exchange_rule(true, true, false, true, true),
        Ok(ExchangeRuleKind::ShellFromTo)
    );
    assert_eq!(
        classify_exchange_rule(true, false, false, true, true),
        Ok(ExchangeRuleKind::ShellFrom)
    );
    assert_eq!(
        classify_exchange_rule(false, false, false, true, true),
        Ok(ExchangeRuleKind::ShellAll)
    );
    assert_eq!(
        classify_exchange_rule(false, true, false, true, true),
        Err(ConfigError::ExchangeFromMissing)
    );
}

#[test]
fn wolff_with_anisotropy_is_rejected() {
    let with_aniso = HamiltonianConfig {
        exchange_enable: true,
        anisotropy_enable: true,
        zeeman_enable: false,
        dm_enable: false,
    };
    let exchange_only = HamiltonianConfig {
        exchange_enable: true,
        anisotropy_enable: false,
        zeeman_enable: false,
        dm_enable: false,
    };
    assert_eq!(
        check_algorithm_compatibility(Algorithm::Wolff, with_aniso),
        Err(ConfigError::AlgorithmIncompatible)
    );
    assert_eq!(
        check_algorithm_compatibility(Algorithm::Metropolis, with_aniso),
        Ok(())
    );
    assert_eq!(
        check_algorithm_compatibility(Algorithm::Wolff, exchange_only),
        Ok(())
    );
}

#[test]
fn unimplemented_term_fails_at_configuration() {
    for (aniso, zeeman, dm) in [
        (true, false, false),
        (false, true, false),
        (false, false, true),
    ] {
        let config = HamiltonianConfig {
            exchange_enable: true,
            anisotropy_enable: aniso,
            zeeman_enable: zeeman,
            dm_enable: dm,
        };
        assert!(matches!(
            Hamiltonian::new(config),
            Err(ConfigError::UnsupportedTerm)
        ));
    }
    let exchange_only = HamiltonianConfig {
        exchange_enable: true,
        anisotropy_enable: false,
        zeeman_enable: false,
        dm_enable: false,
    };
    let h = Hamiltonian::new(exchange_only).unwrap();
    assert!(h.exchange_enabled());
    assert_eq!(h.config(), exchange_only);
}

#[test]
fn model_component_counts() {
    assert_eq!(Model::Ising.components(), 1);
    assert_eq!(Model::Xy.components(), 2);
    assert_eq!(Model::Heisenberg.components(), 3);
}

#[test]
fn grid_magnitude_count_must_match() {
    assert_eq!(spinmc::config::validate_grid(2, 2), Ok(()));
    assert_eq!(
        spinmc::config::validate_grid(2, 3),
        Err(ConfigError::MagnitudeCountMismatch {
            sublattices: 2,
            magnitudes: 3
        })
    );
}

#[test]
fn anisotropy_counts_must_match() {
    assert_eq!(spinmc::config::validate_anisotropy(2, 2, 2), Ok(()));
    assert_eq!(
        spinmc::config::validate_anisotropy(1, 2, 2),
        Err(ConfigError::AnisotropyLengthMismatch {
            axes: 1,
            strengths: 2
        })
    );
    assert_eq!(
        spinmc::config::validate_anisotropy(3, 3, 2),
        Err(ConfigError::AnisotropyCountMismatch {
            strengths: 3,
            sublattices: 2
        })
    );
}

#[test]
fn output_needs_an_observable() {
    let mut out = output_with(None, None);
    out.energy = None;
    assert_eq!(out.validate(1), Err(ConfigError::NoObservables));
    out.energy = Some(false);
    out.heat_capacity = Some(false);
    out.magnetization = Some(false);
    out.susceptibility = Some(false);
    out.magnetization_abs = Some(false);
    out.susceptibility_abs = Some(false);
    assert_eq!(out.validate(1), Err(ConfigError::NoObservables));
}

#[test]
fn group_observable_needs_groups() {
    let out = output_with(None, Some(true));
    assert_eq!(out.validate(1), Err(ConfigError::GroupMissing));
    let out = output_with(Some(vec![vec![0]]), Some(true));
    assert_eq!(out.validate(1), Ok(()));
}

#[test]
fn group_member_outside_basis_is_rejected() {
    let out = output_with(Some(vec![vec![0], vec![1, 2]]), Some(true));
    assert_eq!(
        out.validate(2),
        Err(ConfigError::GroupMemberOutOfRange { member: 2 })
    );
    assert_eq!(out.validate(3), Ok(()));
}

#[test]
fn stats_config_sum_selection() {
    let cfg = StatsConfig {
        energy: true,
        heat_capacity: false,
        magnetization: false,
        susceptibility: true,
        magnetization_abs: false,
        susceptibility_abs: false,
    };
    assert!(cfg.any_enabled());
    assert!(cfg.needs_energy_sum());
    assert!(!cfg.needs_energy_sq_sum());
    assert!(cfg.needs_spin_vector_sum());
    assert!(!cfg.needs_norm_sum());
    assert!(cfg.needs_norm_sq_sum());
    let heat_only = StatsConfig {
        energy: false,
        heat_capacity: true,
        magnetization: false,
        susceptibility: false,
        magnetization_abs: false,
        susceptibility_abs: false,
    };
    assert!(heat_only.needs_energy_sum());
    assert!(heat_only.needs_energy_sq_sum());
    assert!(!heat_only.needs_spin_vector_sum());
}

#[test]
fn sampling_schedule_counts() {
    assert_eq!(recorded_sample_count(0, 3), 0);
    assert_eq!(recorded_sample_count(1, 3), 1);
    assert_eq!(recorded_sample_count(3, 3), 1);
    assert_eq!(recorded_sample_count(4, 3), 2);
    assert_eq!(recorded_sample_count(10, 1), 10);
    assert_eq!(recorded_sample_count(10, 4), 3);
    let mut counted = 0usize;
    for step in 0..10usize {
        if should_record(step, 4) {
            counted += 1;
        }
    }
    assert_eq!(counted, recorded_sample_count(10, 4));
}

#[test]
fn snapshot_settings_default_to_phase_lengths() {
    let raw = Snapshots {
        snapshot_equil_interval: None,
        snapshot_steps_interval: Some(25),
        snapshot_compression: None,
        snapshot_dir: None,
    };
    let parsed = raw.parse(400, 900);
    assert_eq!(parsed.snapshot_equil_interval, 400);
    assert_eq!(parsed.snapshot_steps_interval, 25);
    assert_eq!(parsed.snapshot_compression, 0);
    assert_eq!(parsed.snapshot_dir, "snapshots");
    let raw = Snapshots {
        snapshot_equil_interval: Some(7),
        snapshot_steps_interval: None,
        snapshot_compression: Some(9),
        snapshot_dir: Some(String::from("dumps")),
    };
    let parsed = raw.parse(400, 900);
    assert_eq!(parsed.snapshot_equil_interval, 7);
    assert_eq!(parsed.snapshot_steps_interval, 900);
    assert_eq!(parsed.snapshot_compression, 9);
    assert_eq!(parsed.snapshot_dir, "dumps");
}

#[test]
fn error_messages_are_descriptive() {
    assert!(ConfigError::DuplicateNeighbor { site: 3 }
        .message()
        .contains("duplicate"));
    assert!(ConfigError::NoObservables.message().contains("observable"));
    assert!(ConfigError::UnsupportedTerm.message().contains("term"));
}
