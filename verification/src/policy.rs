//! Options of proximity connectivity. No behaviour is attached to them.

use vstd::prelude::*;

verus! {

/// How the probability of a connection falls with distance.
#[derive(Copy, Clone, Debug, PartialEq, Eq, Structural)]
pub enum ProbabilityMode {
    Step,
    Linear,
    Logistic,
}

/// Options of a proximity policy. `radius` is a fixed-point number.
#[derive(Copy, Clone, Debug, PartialEq, Eq, Structural)]
pub struct ProximityConfig {
    pub radius: u64,
    pub budget_per_tick: usize,
    pub per_source_cooldown: u64,
    pub probability_mode: ProbabilityMode,
}

} // verus!
