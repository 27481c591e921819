//! Monte Carlo simulation of classical spin lattices.
//!
//! The crate builds rectangular lattices with a sublattice basis, resolves
//! exchange-rule neighbor topology under periodic or open boundaries, and
//! drives local (Metropolis) and cluster (Wolff) updates over a spin array.
//! All integer-valued structure — site indexing, neighbor resolution,
//! configuration validation, cluster growth and sampling schedules — is
//! verified here; numeric orientation data is carried generically and its
//! floating-point interpretation belongs to the caller.

pub mod config;
pub mod energy;
pub mod error;
pub mod hamiltonian;
pub mod lattice;
pub mod metropolis;
pub mod rng;
pub mod spins;
pub mod snapshots;
pub mod stats;
pub mod symmetry;
pub mod topology;
pub mod wolff;
