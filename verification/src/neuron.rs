//! A neuron: a slot engine with fallback-streak bookkeeping.

use crate::bus::LateralBus;
use crate::ids::{NeuronId, SlotId};
use crate::slot_config::SlotConfig;
use crate::slot_engine::{EngineState, SlotDomain, SlotEngine, SlotSelection};
use vstd::prelude::*;

verus! {

#[derive(Copy, Clone, Debug, PartialEq, Eq, Structural)]
pub enum NeuronKind {
    Excitatory,
    Inhibitory,
    Modulatory,
}

#[derive(Debug)]
pub struct Neuron {
    pub id: NeuronId,
    pub kind: NeuronKind,
    pub slot_cfg: SlotConfig,
    pub slot_engine: SlotEngine,
    pub last_slot_used_fallback: bool,
    pub fallback_streak: u32,
    pub last_growth_step: u64,
}

/// What a neuron holds, as plain values.
pub struct NeuronState {
    pub id: NeuronId,
    pub kind: NeuronKind,
    pub slot_cfg: SlotConfig,
    pub engine: EngineState,
    pub last_slot_used_fallback: bool,
    pub fallback_streak: u32,
    pub last_growth_step: u64,
}

impl NeuronState {
    /// A neuron that has observed nothing, with an engine of the given
    /// domain set up from its options.
    pub open spec fn fresh(
        id: NeuronId,
        kind: NeuronKind,
        slot_cfg: SlotConfig,
        domain: SlotDomain,
    ) -> NeuronState {
        NeuronState {
            id,
            kind,
            slot_cfg,
            engine: EngineState::fresh(
                domain,
                slot_cfg.slot_limit,
                slot_cfg.bin_width_pct,
                slot_cfg.epsilon_scale,
            ),
            last_slot_used_fallback: false,
            fallback_streak: 0,
            last_growth_step: 0,
        }
    }

    /// The neuron after its engine made `selection` and became `engine`:
    /// a fallback lengthens the streak by one (held at the largest value),
    /// any other selection ends it.
    pub open spec fn noted(self, engine: EngineState, selection: SlotSelection) -> NeuronState {
        NeuronState {
            engine,
            last_slot_used_fallback: selection.used_fallback,
            fallback_streak: if selection.used_fallback {
                if self.fallback_streak == u32::MAX {
                    u32::MAX
                } else {
                    (self.fallback_streak + 1) as u32
                }
            } else {
                0
            },
            ..self
        }
    }

    /// The neuron after a scalar observation.
    pub open spec fn observed_scalar(self, value: i64) -> NeuronState {
        self.noted(self.engine.observed_scalar(value), self.engine.selection_scalar(value))
    }

    /// The neuron after a two-dimensional observation.
    pub open spec fn observed_two_d(self, row: i64, col: i64) -> NeuronState {
        self.noted(self.engine.observed_two_d(row, col), self.engine.selection_two_d(row, col))
    }

    /// Whether the neuron asks for growth at step `current_step`: growth is
    /// enabled, the streak has reached the threshold, and the cooldown
    /// since its last growth has passed.
    pub open spec fn wants_growth(self, current_step: u64) -> bool {
        &&& self.slot_cfg.neuron_growth_enabled
        &&& self.fallback_streak >= self.slot_cfg.fallback_growth_threshold
        &&& (if current_step >= self.last_growth_step {
            current_step - self.last_growth_step
        } else {
            0
        }) >= self.slot_cfg.neuron_growth_cooldown_ticks
    }

    /// Whether the neuron is saturated: its slot table is at capacity and
    /// its last observation fell back.
    pub open spec fn saturated(self) -> bool {
        self.engine.at_capacity() && self.last_slot_used_fallback
    }
}

impl View for Neuron {
    type V = NeuronState;

    open spec fn view(&self) -> NeuronState {
        NeuronState {
            id: self.id,
            kind: self.kind,
            slot_cfg: self.slot_cfg,
            engine: self.slot_engine@,
            last_slot_used_fallback: self.last_slot_used_fallback,
            fallback_streak: self.fallback_streak,
            last_growth_step: self.last_growth_step,
        }
    }
}

impl Neuron {
    /// The invariant of a neuron: that of its engine.
    pub open spec fn wf(&self) -> bool {
        self.slot_engine.wf()
    }

    pub fn new(id: NeuronId, kind: NeuronKind, slot_cfg: SlotConfig, domain: SlotDomain) -> (neuron:
        Self)
        ensures
            neuron.wf(),
            neuron@ == NeuronState::fresh(id, kind, slot_cfg, domain),
    {
        let capacity = slot_cfg.slot_limit;
        let engine = match domain {
            SlotDomain::Scalar => SlotEngine::new_scalar(
                capacity,
                slot_cfg.bin_width_pct,
                slot_cfg.epsilon_scale,
            ),
            SlotDomain::TwoD => SlotEngine::new_two_d(
                capacity,
                slot_cfg.bin_width_pct,
                slot_cfg.epsilon_scale,
            ),
        };
        Self {
            id,
            kind,
            slot_cfg,
            slot_engine: engine,
            last_slot_used_fallback: false,
            fallback_streak: 0,
            last_growth_step: 0,
        }
    }

    /// Hands a scalar to the engine and notes whether it fell back.
    pub fn observe_scalar(&mut self, value: i64) -> (slot_id: SlotId)
        requires
            old(self).wf(),
        ensures
            final(self).wf(),
            final(self)@ == old(self)@.observed_scalar(value),
            slot_id == old(self)@.engine.selection_scalar(value).slot_id,
    {
        let selection = self.slot_engine.observe_scalar(value);
        self.last_slot_used_fallback = selection.used_fallback;
        if self.last_slot_used_fallback {
            self.fallback_streak = self.fallback_streak.saturating_add(1);
        } else {
            self.fallback_streak = 0;
        }
        selection.slot_id
    }

    /// Hands a grid position to the engine and notes whether it fell back.
    pub fn observe_two_d(&mut self, row: i64, col: i64) -> (slot_id: SlotId)
        requires
            old(self).wf(),
        ensures
            final(self).wf(),
            final(self)@ == old(self)@.observed_two_d(row, col),
            slot_id == old(self)@.engine.selection_two_d(row, col).slot_id,
    {
        let selection = self.slot_engine.observe_two_d(row, col);
        self.last_slot_used_fallback = selection.used_fallback;
        if self.last_slot_used_fallback {
            self.fallback_streak = self.fallback_streak.saturating_add(1);
        } else {
            self.fallback_streak = 0;
        }
        selection.slot_id
    }

    /// End-of-tick hook: no per-neuron state decays.
    pub fn end_tick(&mut self, _bus: &mut LateralBus)
        ensures
            *final(self) == *old(self),
            *final(_bus) == *old(_bus),
    {
    }
}

} // verus!
