//! Energy-term selection for the Hamiltonian.
//!
//! The Hamiltonian is a closed set of pairwise energy-term evaluators.
//! Only the bilinear exchange term has an implemented evaluator; anisotropy,
//! Zeeman and Dzyaloshinskii–Moriya terms are declared extension points, and
//! selecting one fails at configuration time rather than evaluating to zero
//! or panicking mid-run.

use vstd::prelude::*;
use crate::error::ConfigError;

verus! {

/// Which pairwise energy terms a configuration enables.
#[derive(Clone, Copy, Debug, PartialEq, Eq, Structural)]
pub struct HamiltonianConfig {
    pub exchange_enable: bool,
    pub anisotropy_enable: bool,
    pub zeeman_enable: bool,
    pub dm_enable: bool,
}

impl HamiltonianConfig {
    /// True when some enabled term has no implemented evaluator.
    pub open spec fn selects_unimplemented_term(self) -> bool {
        self.anisotropy_enable || self.zeeman_enable || self.dm_enable
    }
}

/// A validated set of energy-term evaluators: only terms with an implemented
/// evaluator are ever enabled in a value of this type.
#[derive(Clone, Copy, Debug)]
pub struct Hamiltonian {
    config: HamiltonianConfig,
}

impl Hamiltonian {
    /// The term selection this Hamiltonian was validated from.
    pub closed spec fn spec_config(&self) -> HamiltonianConfig {
        self.config
    }

    /// Every constructed Hamiltonian holds only implemented terms.
    pub open spec fn wf(&self) -> bool {
        !self.spec_config().selects_unimplemented_term()
    }

    /// Validates a term selection: rejected exactly when a term without an
    /// implemented evaluator is enabled.
    pub fn new(config: HamiltonianConfig) -> (r: Result<Hamiltonian, ConfigError>)
        ensures
            config.selects_unimplemented_term() <==> r == Err::<Hamiltonian, ConfigError>(
                ConfigError::UnsupportedTerm,
            ),
            !config.selects_unimplemented_term() ==> r is Ok && r->Ok_0.spec_config() == config
                && r->Ok_0.wf(),
    {
        if config.anisotropy_enable || config.zeeman_enable || config.dm_enable {
            Err(ConfigError::UnsupportedTerm)
        } else {
            Ok(Hamiltonian { config })
        }
    }

    /// The validated term selection.
    pub fn config(&self) -> (c: HamiltonianConfig)
        ensures
            c == self.spec_config(),
    {
        self.config
    }

    /// Whether the exchange term contributes.
    pub fn exchange_enabled(&self) -> (b: bool)
        ensures
            b == self.spec_config().exchange_enable,
    {
        self.config.exchange_enable
    }
}

} // verus!
