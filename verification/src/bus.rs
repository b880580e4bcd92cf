//! Per-layer lateral state with end-of-tick decay.

use crate::fixed::{scale, scaled_product, UNIT};
use vstd::prelude::*;

verus! {

/// Scalar state shared by the neurons of one layer. `inhibition`,
/// `modulation` and `decay_factor` are fixed-point numbers.
#[derive(Copy, Clone, Debug, PartialEq, Eq, Structural)]
pub struct LateralBus {
    pub inhibition: u64,
    pub modulation: i64,
    pub current_step: u64,
    pub decay_factor: u64,
}

impl LateralBus {
    /// The bus as one end-of-tick decay leaves it: inhibition multiplied by
    /// the decay factor, modulation back at one, the step counter advanced
    /// by one and held at its largest value.
    pub open spec fn decayed(self) -> LateralBus {
        LateralBus {
            inhibition: scaled_product(self.inhibition, self.decay_factor),
            modulation: UNIT as i64,
            current_step: if self.current_step == u64::MAX {
                u64::MAX
            } else {
                (self.current_step + 1) as u64
            },
            decay_factor: self.decay_factor,
        }
    }

    /// A bus at rest: no inhibition, modulation one, step zero.
    pub open spec fn at_rest(decay_factor: u64) -> LateralBus {
        LateralBus { inhibition: 0, modulation: UNIT as i64, current_step: 0, decay_factor }
    }

    /// A bus at rest.
    pub fn new(decay_factor: u64) -> (bus: Self)
        ensures
            bus == LateralBus::at_rest(decay_factor),
    {
        Self { inhibition: 0, modulation: UNIT as i64, current_step: 0, decay_factor }
    }

    /// End-of-tick decay.
    pub fn decay(&mut self)
        ensures
            *final(self) == old(self).decayed(),
    {
        self.inhibition = scale(self.inhibition, self.decay_factor);
        self.modulation = UNIT as i64;
        self.current_step = self.current_step.saturating_add(1);
    }
}

/// With a decay factor of at most one, decay multiplies the inhibition by
/// the factor to within one fixed-point unit, and never raises it.
pub proof fn lemma_decay_multiplies(bus: LateralBus)
    requires
        bus.decay_factor <= UNIT,
    ensures
        bus.decayed().inhibition <= bus.inhibition,
        bus.decayed().inhibition * UNIT <= bus.inhibition * bus.decay_factor,
        bus.inhibition * bus.decay_factor < (bus.decayed().inhibition + 1) * UNIT,
{
    let x = bus.inhibition as int;
    let d = bus.decay_factor as int;
    let q = (x * d) / (UNIT as int);
    assert(x * d <= x * UNIT) by (nonlinear_arith)
        requires
            d <= UNIT,
            0 <= x,
    ;
    assert(0 <= q <= x && q * UNIT <= x * d < (q + 1) * UNIT) by (nonlinear_arith)
        requires
            q == (x * d) / (UNIT as int),
            0 <= x * d <= x * UNIT,
            UNIT == 1_000_000_000,
            0 <= x,
    ;
}

} // verus!
