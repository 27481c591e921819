//! Configuration errors.
//!
//! Every way a simulation setup can be rejected before any simulation work
//! starts is a variant here, so that callers can state exactly which inputs
//! produce which rejection.

use vstd::prelude::*;

verus! {

/// A fatal configuration error, reported before any simulation work begins.
#[derive(Clone, Debug, PartialEq, Eq, Structural)]
pub enum ConfigError {
    /// An exchange-rule set produced two bonds from one site to the same
    /// target site.
    DuplicateNeighbor { site: usize },
    /// Both an explicit temperature list and a sweep triple were given.
    TemperatureConflict,
    /// Neither an explicit temperature list nor a sweep triple was given.
    TemperatureMissing,
    /// Only part of the sweep triple (start, end, step) was given.
    TemperatureIncomplete,
    /// A named site group refers to a sublattice outside the basis.
    GroupMemberOutOfRange { member: usize },
    /// A group-resolved observable was requested but no groups were given.
    GroupMissing,
    /// No observable at all was enabled.
    NoObservables,
    /// The per-sublattice magnitude list does not match the sublattice count.
    MagnitudeCountMismatch { sublattices: usize, magnitudes: usize },
    /// The anisotropy axis list does not match its strength list.
    AnisotropyLengthMismatch { axes: usize, strengths: usize },
    /// The anisotropy strength list does not match the sublattice count.
    AnisotropyCountMismatch { strengths: usize, sublattices: usize },
    /// An energy term with no implemented evaluator was enabled.
    UnsupportedTerm,
    /// The Wolff cluster algorithm was combined with a single-site term.
    AlgorithmIncompatible,
    /// An exchange rule gave both explicit offsets and a neighbor order.
    ExchangeOffsetsAndOrder,
    /// An exchange rule gave neither explicit offsets nor a neighbor order.
    ExchangeOffsetsMissing,
    /// A neighbor order was given without a crystal structure to derive from.
    ExchangeStructureMissing,
    /// Explicit offsets were given without both endpoint sublattices.
    ExchangeEndpointsMissing,
    /// A target sublattice was given without a source sublattice.
    ExchangeFromMissing,
}

impl ConfigError {
    /// A human-readable description of the rejection.
    pub fn message(&self) -> String {
        match self {
            ConfigError::DuplicateNeighbor { .. } => String::from_str(
                "duplicate neighbor indices found in the exchange coupling configuration",
            ),
            ConfigError::TemperatureConflict => String::from_str(
                "cannot give both a temperature list and a sweep triple; choose one",
            ),
            ConfigError::TemperatureMissing => String::from_str(
                "either a temperature list or all of start, end and step must be given",
            ),
            ConfigError::TemperatureIncomplete => String::from_str(
                "start, end and step must all be given together",
            ),
            ConfigError::GroupMemberOutOfRange { .. } => String::from_str(
                "a site group names a sublattice outside the basis",
            ),
            ConfigError::GroupMissing => String::from_str(
                "a group observable was enabled but no groups were given",
            ),
            ConfigError::NoObservables => String::from_str(
                "no output fields specified: enable at least one observable",
            ),
            ConfigError::MagnitudeCountMismatch { .. } => String::from_str(
                "spin magnitude count does not match the sublattice count",
            ),
            ConfigError::AnisotropyLengthMismatch { .. } => String::from_str(
                "anisotropy axis count does not match its strength count",
            ),
            ConfigError::AnisotropyCountMismatch { .. } => String::from_str(
                "anisotropy strength count does not match the sublattice count",
            ),
            ConfigError::UnsupportedTerm => String::from_str(
                "an enabled energy term has no implemented evaluator",
            ),
            ConfigError::AlgorithmIncompatible => String::from_str(
                "the Wolff algorithm cannot run with a single-site anisotropy term",
            ),
            ConfigError::ExchangeOffsetsAndOrder => String::from_str(
                "do not set both offsets and a neighbor order; only one applies",
            ),
            ConfigError::ExchangeOffsetsMissing => String::from_str(
                "an exchange rule needs either offsets or a neighbor order",
            ),
            ConfigError::ExchangeStructureMissing => String::from_str(
                "a neighbor order needs a crystal structure to derive from",
            ),
            ConfigError::ExchangeEndpointsMissing => String::from_str(
                "explicit offsets need both endpoint sublattices",
            ),
            ConfigError::ExchangeFromMissing => String::from_str(
                "a source sublattice must be given when a neighbor order is used",
            ),
        }
    }
}

} // verus!
