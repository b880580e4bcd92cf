//! Per-neuron options of the slot engine and of growth.

use vstd::prelude::*;

verus! {

/// Options a neuron is created with. `bin_width_pct` (in percent) and
/// `epsilon_scale` are fixed-point numbers.
#[derive(Copy, Clone, Debug, PartialEq, Eq, Structural)]
pub struct SlotConfig {
    pub slot_limit: usize,
    pub bin_width_pct: u64,
    pub epsilon_scale: u64,
    pub fallback_growth_threshold: u32,
    pub neuron_growth_cooldown_ticks: u64,
    pub growth_enabled: bool,
    pub neuron_growth_enabled: bool,
    pub layer_growth_enabled: bool,
}

impl SlotConfig {
    /// The options used when none are given: eight slots, bins five percent
    /// wide, an epsilon of one millionth, growth after three fallbacks in a
    /// row with no cooldown, neuron growth on and layer growth off.
    pub open spec fn default_spec() -> SlotConfig {
        SlotConfig {
            slot_limit: 8,
            bin_width_pct: 5_000_000_000,
            epsilon_scale: 1_000,
            fallback_growth_threshold: 3,
            neuron_growth_cooldown_ticks: 0,
            growth_enabled: true,
            neuron_growth_enabled: true,
            layer_growth_enabled: false,
        }
    }
}

impl Default for SlotConfig {
    fn default() -> (cfg: Self)
        ensures
            cfg == SlotConfig::default_spec(),
    {
        Self {
            slot_limit: 8,
            bin_width_pct: 5_000_000_000,
            epsilon_scale: 1_000,
            fallback_growth_threshold: 3,
            neuron_growth_cooldown_ticks: 0,
            growth_enabled: true,
            neuron_growth_enabled: true,
            layer_growth_enabled: false,
        }
    }
}

} // verus!
