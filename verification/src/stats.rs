//! Observable selection and the sampling schedule.
//!
//! A statistics accumulator keeps only the running sums that the requested
//! observables need; which sums those are is decided here. The schedule
//! records one sample at every production step whose index is a multiple of
//! the sampling interval.

use vstd::prelude::*;

verus! {

/// Which thermodynamic observables a run reports.
#[derive(Clone, Copy, Debug, PartialEq, Eq, Structural)]
pub struct StatsConfig {
    pub energy: bool,
    pub heat_capacity: bool,
    pub magnetization: bool,
    pub susceptibility: bool,
    pub magnetization_abs: bool,
    pub susceptibility_abs: bool,
}

impl StatsConfig {
    /// Some observable is enabled.
    pub open spec fn spec_any_enabled(self) -> bool {
        self.energy || self.heat_capacity || self.magnetization || self.susceptibility
            || self.magnetization_abs || self.susceptibility_abs
    }

    /// The running energy sum is needed: the mean energy reports it, and the
    /// specific heat subtracts its square.
    pub open spec fn spec_needs_energy_sum(self) -> bool {
        self.energy || self.heat_capacity
    }

    /// The running sum of squared energies is needed by the specific heat.
    pub open spec fn spec_needs_energy_sq_sum(self) -> bool {
        self.heat_capacity
    }

    /// The running spin-vector sum is needed: the magnetization reports the
    /// norm of its average, and the susceptibility subtracts its square.
    pub open spec fn spec_needs_spin_vector_sum(self) -> bool {
        self.magnetization || self.susceptibility
    }

    /// The running sum of per-step norms is needed by the absolute
    /// magnetization and its susceptibility.
    pub open spec fn spec_needs_norm_sum(self) -> bool {
        self.magnetization_abs || self.susceptibility_abs
    }

    /// The running sum of squared norms is needed by both susceptibilities.
    pub open spec fn spec_needs_norm_sq_sum(self) -> bool {
        self.susceptibility || self.susceptibility_abs
    }

    /// Some observable is enabled.
    pub fn any_enabled(&self) -> (b: bool)
        ensures
            b == self.spec_any_enabled(),
    {
        self.energy || self.heat_capacity || self.magnetization || self.susceptibility
            || self.magnetization_abs || self.susceptibility_abs
    }

    /// Whether the accumulator must keep the energy sum.
    pub fn needs_energy_sum(&self) -> (b: bool)
        ensures
            b == self.spec_needs_energy_sum(),
    {
        self.energy || self.heat_capacity
    }

    /// Whether the accumulator must keep the squared-energy sum.
    pub fn needs_energy_sq_sum(&self) -> (b: bool)
        ensures
            b == self.spec_needs_energy_sq_sum(),
    {
        self.heat_capacity
    }

    /// Whether the accumulator must keep the spin-vector sum.
    pub fn needs_spin_vector_sum(&self) -> (b: bool)
        ensures
            b == self.spec_needs_spin_vector_sum(),
    {
        self.magnetization || self.susceptibility
    }

    /// Whether the accumulator must keep the per-step norm sum.
    pub fn needs_norm_sum(&self) -> (b: bool)
        ensures
            b == self.spec_needs_norm_sum(),
    {
        self.magnetization_abs || self.susceptibility_abs
    }

    /// Whether the accumulator must keep the squared-norm sum.
    pub fn needs_norm_sq_sum(&self) -> (b: bool)
        ensures
            b == self.spec_needs_norm_sq_sum(),
    {
        self.susceptibility || self.susceptibility_abs
    }
}

/// How many production steps among the first `n_steps` are recorded when
/// every step with index divisible by `interval` is sampled.
pub open spec fn spec_recorded_count(n_steps: int, interval: int) -> int
    decreases n_steps,
{
    if n_steps <= 0 {
        0
    } else {
        spec_recorded_count(n_steps - 1, interval) + if (n_steps - 1) % interval == 0 {
            1int
        } else {
            0int
        }
    }
}

/// The recorded-step count has the closed form `(n - 1) / k + 1` for `n >= 1`.
pub proof fn lemma_recorded_count_closed_form(n_steps: int, interval: int)
    requires
        0 <= n_steps,
        1 <= interval,
    ensures
        spec_recorded_count(n_steps, interval) == if n_steps == 0 {
            0int
        } else {
            (n_steps - 1) / interval + 1
        },
    decreases n_steps,
{
    if n_steps == 0 {
    } else if n_steps == 1 {
        assert(0int % interval == 0) by {
            vstd::arithmetic::div_mod::lemma_small_mod(0nat, interval as nat);
        }
        assert(0int / interval == 0) by {
            vstd::arithmetic::div_mod::lemma_basic_div(0int, interval);
        }
        assert(spec_recorded_count(0, interval) == 0);
        assert(spec_recorded_count(1, interval) == 1);
    } else {
        lemma_recorded_count_closed_form(n_steps - 1, interval);
        let m = n_steps - 1;
        // Relate (m - 1) / k and m / k through m's remainder.
        vstd::arithmetic::div_mod::lemma_fundamental_div_mod(m, interval);
        vstd::arithmetic::div_mod::lemma_mod_bound(m, interval);
        let q = m / interval;
        let rr = m % interval;
        if rr == 0 {
            assert(m - 1 == (q - 1) * interval + (interval - 1)) by (nonlinear_arith)
                requires
                    m == interval * q + rr,
                    rr == 0,
            ;
            vstd::arithmetic::div_mod::lemma_fundamental_div_mod_converse_div(
                m - 1,
                interval,
                q - 1,
                interval - 1,
            );
        } else {
            assert(m - 1 == q * interval + (rr - 1)) by (nonlinear_arith)
                requires
                    m == interval * q + rr,
            ;
            vstd::arithmetic::div_mod::lemma_fundamental_div_mod_converse_div(
                m - 1,
                interval,
                q,
                rr - 1,
            );
        }
    }
}

/// Whether the production step with index `step` is recorded.
pub fn should_record(step: usize, interval: usize) -> (b: bool)
    requires
        1 <= interval,
    ensures
        b <==> step as int % interval as int == 0,
{
    step % interval == 0
}

/// The number of samples a production run of `n_steps` steps records.
pub fn recorded_sample_count(n_steps: usize, interval: usize) -> (n: usize)
    requires
        1 <= interval,
    ensures
        n == spec_recorded_count(n_steps as int, interval as int),
{
    proof {
        lemma_recorded_count_closed_form(n_steps as int, interval as int);
    }
    if n_steps == 0 {
        0
    } else {
        (n_steps - 1) / interval + 1
    }
}

} // verus!
