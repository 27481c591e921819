//! Configuration validation: the integer- and flag-valued rules that decide
//! whether a simulation setup is accepted, before any simulation work.
//!
//! The numeric values themselves (temperatures, couplings, magnitudes) are
//! carried by the caller; every structural decision about them is made here
//! with an exact contract.

use vstd::prelude::*;
use crate::error::ConfigError;
use crate::hamiltonian::HamiltonianConfig;

verus! {

/// The initial orientation of every spin.
#[derive(Clone, Copy, Debug, PartialEq, Eq, Structural)]
pub enum InitialState {
    Random,
    X,
    Y,
    Z,
}

/// The spin-state variant a run simulates.
#[derive(Clone, Copy, Debug, PartialEq, Eq, Structural)]
pub enum Model {
    Ising,
    Xy,
    Heisenberg,
}

impl Model {
    /// The number of orientation components of this variant.
    pub open spec fn spec_components(self) -> int {
        match self {
            Model::Ising => 1,
            Model::Xy => 2,
            Model::Heisenberg => 3,
        }
    }

    /// The number of orientation components of this variant.
    pub fn components(&self) -> (n: usize)
        ensures
            n == self.spec_components(),
    {
        match self {
            Model::Ising => 1,
            Model::Xy => 2,
            Model::Heisenberg => 3,
        }
    }
}

/// The update algorithm a run uses.
#[derive(Clone, Copy, Debug, PartialEq, Eq, Structural)]
pub enum Algorithm {
    Metropolis,
    Wolff,
}

/// The pairwise interaction family a neighbor descriptor carries.
#[derive(Clone, Copy, Debug, PartialEq, Eq, Structural)]
pub enum InteractionType {
    Exchange,
    DzyaloshinskiiMoriya,
    DoubleExchange,
}

/// Where the temperature list comes from: an explicit list, or a
/// (start, end, step) sweep.
#[derive(Clone, Copy, Debug, PartialEq, Eq, Structural)]
pub enum TemperatureMode {
    Explicit,
    Sweep,
}

/// Decides between an explicit temperature list and a sweep triple from
/// which parts of the configuration are present: exactly one of the two
/// complete forms must be given.
pub fn resolve_temperature_mode(has_list: bool, has_start: bool, has_end: bool, has_step: bool)
    -> (r: Result<TemperatureMode, ConfigError>)
    ensures
        has_list && (has_start || has_end || has_step) ==> r == Err::<
            TemperatureMode,
            ConfigError,
        >(ConfigError::TemperatureConflict),
        has_list && !has_start && !has_end && !has_step ==> r == Ok::<
            TemperatureMode,
            ConfigError,
        >(TemperatureMode::Explicit),
        !has_list && has_start && has_end && has_step ==> r == Ok::<TemperatureMode, ConfigError>(
            TemperatureMode::Sweep,
        ),
        !has_list && !has_start && !has_end && !has_step ==> r == Err::<
            TemperatureMode,
            ConfigError,
        >(ConfigError::TemperatureMissing),
        !has_list && (has_start || has_end || has_step) && !(has_start && has_end && has_step)
            ==> r == Err::<TemperatureMode, ConfigError>(ConfigError::TemperatureIncomplete),
{
    if has_list {
        if has_start || has_end || has_step {
            Err(ConfigError::TemperatureConflict)
        } else {
            Ok(TemperatureMode::Explicit)
        }
    } else {
        if has_start && has_end && has_step {
            Ok(TemperatureMode::Sweep)
        } else if !has_start && !has_end && !has_step {
            Err(ConfigError::TemperatureMissing)
        } else {
            Err(ConfigError::TemperatureIncomplete)
        }
    }
}

/// How one exchange rule's targets are described.
#[derive(Clone, Copy, Debug, PartialEq, Eq, Structural)]
pub enum ExchangeRuleKind {
    /// Explicit offsets between two named sublattices.
    Explicit,
    /// A neighbor shell of the crystal structure, between two sublattices.
    ShellFromTo,
    /// A neighbor shell of the crystal structure, from one sublattice.
    ShellFrom,
    /// A neighbor shell of the crystal structure, over all sublattice pairs.
    ShellAll,
}

/// Classifies one raw exchange rule from which of its parts are present:
/// explicit offsets and a neighbor order are mutually exclusive, a neighbor
/// order needs a crystal structure, explicit offsets need both endpoints,
/// and a target without a source is rejected.
pub fn classify_exchange_rule(
    has_from: bool,
    has_to: bool,
    has_offsets: bool,
    has_order: bool,
    has_structure: bool,
) -> (r: Result<ExchangeRuleKind, ConfigError>)
    ensures
        has_offsets && has_order ==> r == Err::<ExchangeRuleKind, ConfigError>(
            ConfigError::ExchangeOffsetsAndOrder,
        ),
        !has_offsets && !has_order ==> r == Err::<ExchangeRuleKind, ConfigError>(
            ConfigError::ExchangeOffsetsMissing,
        ),
        !has_offsets && has_order && !has_structure ==> r == Err::<ExchangeRuleKind, ConfigError>(
            ConfigError::ExchangeStructureMissing,
        ),
        has_offsets && !has_order && has_from && has_to ==> r == Ok::<
            ExchangeRuleKind,
            ConfigError,
        >(ExchangeRuleKind::Explicit),
        has_offsets && !has_order && !(has_from && has_to) ==> r == Err::<
            ExchangeRuleKind,
            ConfigError,
        >(ConfigError::ExchangeEndpointsMissing),
        !has_offsets && has_order && has_structure && has_from && has_to ==> r == Ok::<
            ExchangeRuleKind,
            ConfigError,
        >(ExchangeRuleKind::ShellFromTo),
        !has_offsets && has_order && has_structure && has_from && !has_to ==> r == Ok::<
            ExchangeRuleKind,
            ConfigError,
        >(ExchangeRuleKind::ShellFrom),
        !has_offsets && has_order && has_structure && !has_from && !has_to ==> r == Ok::<
            ExchangeRuleKind,
            ConfigError,
        >(ExchangeRuleKind::ShellAll),
        !has_offsets && has_order && has_structure && !has_from && has_to ==> r == Err::<
            ExchangeRuleKind,
            ConfigError,
        >(ConfigError::ExchangeFromMissing),
{
    if has_offsets && has_order {
        Err(ConfigError::ExchangeOffsetsAndOrder)
    } else if !has_offsets && !has_order {
        Err(ConfigError::ExchangeOffsetsMissing)
    } else if has_order && !has_structure {
        Err(ConfigError::ExchangeStructureMissing)
    } else if has_offsets {
        if has_from && has_to {
            Ok(ExchangeRuleKind::Explicit)
        } else {
            Err(ConfigError::ExchangeEndpointsMissing)
        }
    } else {
        if has_from && has_to {
            Ok(ExchangeRuleKind::ShellFromTo)
        } else if has_from {
            Ok(ExchangeRuleKind::ShellFrom)
        } else if has_to {
            Err(ConfigError::ExchangeFromMissing)
        } else {
            Ok(ExchangeRuleKind::ShellAll)
        }
    }
}

/// The Wolff cluster algorithm's acceptance probabilities assume a purely
/// bilinear exchange Hamiltonian: combining it with a single-site anisotropy
/// term is rejected rather than silently approximated.
pub fn check_algorithm_compatibility(algorithm: Algorithm, config: HamiltonianConfig) -> (r:
    Result<(), ConfigError>)
    ensures
        algorithm == Algorithm::Wolff && config.anisotropy_enable <==> r == Err::<(), ConfigError>(
            ConfigError::AlgorithmIncompatible,
        ),
        !(algorithm == Algorithm::Wolff && config.anisotropy_enable) <==> r == Ok::<
            (),
            ConfigError,
        >(()),
{
    match algorithm {
        Algorithm::Wolff => {
            if config.anisotropy_enable {
                Err(ConfigError::AlgorithmIncompatible)
            } else {
                Ok(())
            }
        },
        Algorithm::Metropolis => Ok(()),
    }
}

/// The per-sublattice magnitude list must name one magnitude per sublattice.
pub fn validate_grid(sublattices: usize, magnitude_count: usize) -> (r: Result<(), ConfigError>)
    ensures
        sublattices == magnitude_count <==> r == Ok::<(), ConfigError>(()),
        sublattices != magnitude_count ==> r == Err::<(), ConfigError>(
            ConfigError::MagnitudeCountMismatch { sublattices, magnitudes: magnitude_count },
        ),
{
    if sublattices != magnitude_count {
        Err(ConfigError::MagnitudeCountMismatch { sublattices, magnitudes: magnitude_count })
    } else {
        Ok(())
    }
}

/// The anisotropy axis list must pair with its strength list, and the
/// strengths must name one value per sublattice.
pub fn validate_anisotropy(axis_count: usize, strength_count: usize, sublattices: usize) -> (r:
    Result<(), ConfigError>)
    ensures
        axis_count != strength_count ==> r == Err::<(), ConfigError>(
            ConfigError::AnisotropyLengthMismatch { axes: axis_count, strengths: strength_count },
        ),
        axis_count == strength_count && strength_count != sublattices ==> r == Err::<
            (),
            ConfigError,
        >(ConfigError::AnisotropyCountMismatch { strengths: strength_count, sublattices }),
        axis_count == strength_count && strength_count == sublattices ==> r == Ok::<
            (),
            ConfigError,
        >(()),
{
    if axis_count != strength_count {
        Err(ConfigError::AnisotropyLengthMismatch { axes: axis_count, strengths: strength_count })
    } else if strength_count != sublattices {
        Err(ConfigError::AnisotropyCountMismatch { strengths: strength_count, sublattices })
    } else {
        Ok(())
    }
}

/// The output section of a configuration: which observables are requested,
/// the named site groups, and where results go.
#[derive(Clone, Debug)]
pub struct Output {
    pub outfile: String,
    pub energy: Option<bool>,
    pub heat_capacity: Option<bool>,
    pub magnetization: Option<bool>,
    pub susceptibility: Option<bool>,
    pub magnetization_abs: Option<bool>,
    pub susceptibility_abs: Option<bool>,
    pub group_magnetization: Option<bool>,
    pub group_susceptibility: Option<bool>,
    pub group: Option<Vec<Vec<usize>>>,
    pub stats_interval: Option<usize>,
}

impl Output {
    /// No observable field was given at all.
    pub open spec fn no_observable_given(&self) -> bool {
        &&& self.energy is None
        &&& self.heat_capacity is None
        &&& self.magnetization is None
        &&& self.susceptibility is None
        &&& self.magnetization_abs is None
        &&& self.susceptibility_abs is None
    }

    /// Every observable field was given and switched off.
    pub open spec fn all_observables_off(&self) -> bool {
        &&& self.energy == Some(false)
        &&& self.heat_capacity == Some(false)
        &&& self.magnetization == Some(false)
        &&& self.susceptibility == Some(false)
        &&& self.magnetization_abs == Some(false)
        &&& self.susceptibility_abs == Some(false)
    }

    /// A group-resolved observable was requested.
    pub open spec fn group_observable_requested(&self) -> bool {
        self.group_magnetization == Some(true) || self.group_susceptibility == Some(true)
    }

    /// Some group member names a sublattice outside the basis.
    pub open spec fn has_bad_group_member(&self, sublattices: usize) -> bool {
        self.group matches Some(group) && exists|g: int, m: int|
            0 <= g < group@.len() && 0 <= m < group@[g]@.len() && (#[trigger] group@[g]@[m])
                >= sublattices
    }

    /// Validates the output section: at least one observable must be
    /// enabled, group observables need groups, and every group member must
    /// name a sublattice of the basis.
    #[verifier::loop_isolation(false)]
    pub fn validate(&self, sublattices: usize) -> (r: Result<(), ConfigError>)
        ensures
            self.no_observable_given() || self.all_observables_off() ==> r == Err::<
                (),
                ConfigError,
            >(ConfigError::NoObservables),
            !(self.no_observable_given() || self.all_observables_off())
                && self.group_observable_requested() && self.group is None ==> r == Err::<
                (),
                ConfigError,
            >(ConfigError::GroupMissing),
            !(self.no_observable_given() || self.all_observables_off()) && !(
            self.group_observable_requested() && self.group is None) && self.has_bad_group_member(
                sublattices,
            ) ==> r is Err && r->Err_0 is GroupMemberOutOfRange,
            !(self.no_observable_given() || self.all_observables_off()) && !(
            self.group_observable_requested() && self.group is None)
                && !self.has_bad_group_member(sublattices) ==> r == Ok::<(), ConfigError>(()),
    {
        let none_given = self.energy.is_none() && self.heat_capacity.is_none()
            && self.magnetization.is_none() && self.susceptibility.is_none()
            && self.magnetization_abs.is_none() && self.susceptibility_abs.is_none();
        let all_off = matches!(self.energy, Some(false)) && matches!(
            self.heat_capacity,
            Some(false),
        ) && matches!(self.magnetization, Some(false)) && matches!(
            self.susceptibility,
            Some(false),
        ) && matches!(self.magnetization_abs, Some(false)) && matches!(
            self.susceptibility_abs,
            Some(false),
        );
        if none_given || all_off {
            return Err(ConfigError::NoObservables);
        }
        let group_requested = matches!(self.group_magnetization, Some(true)) || matches!(
            self.group_susceptibility,
            Some(true),
        );
        match &self.group {
            None => {
                if group_requested {
                    Err(ConfigError::GroupMissing)
                } else {
                    Ok(())
                }
            },
            Some(group) => {
                let mut g: usize = 0;
                while g < group.len()
                    invariant
                        g <= group@.len(),
                        self.group matches Some(gr) && gr == group,
                        forall|h: int, m: int|
                            0 <= h < g as int && 0 <= m < group@[h]@.len() ==> (
                            #[trigger] group@[h]@[m]) < sublattices,
                    decreases group@.len() - g,
                {
                    let members = &group[g];
                    let mut m: usize = 0;
                    while m < members.len()
                        invariant
                            m <= members@.len(),
                            g < group@.len(),
                            members == group@[g as int],
                            forall|j: int|
                                0 <= j < m as int ==> (#[trigger] members@[j]) < sublattices,
                        decreases members@.len() - m,
                    {
                        if members[m] >= sublattices {
                            proof {
                                assert((g as int) < group@.len() && (m as int) < group@[
                                    g as int]@.len() && group@[g as int]@[m as int]
                                    >= sublattices);
                            }
                            return Err(ConfigError::GroupMemberOutOfRange { member: members[m] });
                        }
                        m = m + 1;
                    }
                    g = g + 1;
                }
                Ok(())
            },
        }
    }
}

} // verus!
