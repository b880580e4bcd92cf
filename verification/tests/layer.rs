use grownet_core::fixed::UNIT;
use grownet_core::ids::{LayerId, NeuronId, SlotId};
use grownet_core::layer::{Layer, LayerKind};
use grownet_core::neuron::{Neuron, NeuronKind};
use grownet_core::slot_config::SlotConfig;
use grownet_core::slot_engine::SlotDomain;

fn tight_config() -> SlotConfig {
    SlotConfig {
        slot_limit: 1,
        fallback_growth_threshold: 2,
        neuron_growth_cooldown_ticks: 0,
        ..Default::default()
    }
}

fn whole(n: i64) -> i64 {
    n * UNIT as i64
}

#[test]
fn slot_config_defaults() {
    let cfg = SlotConfig::default();
    assert_eq!(cfg.slot_limit, 8);
    assert_eq!(cfg.bin_width_pct, 5 * UNIT);
    assert_eq!(cfg.epsilon_scale, 1_000);
    assert_eq!(cfg.fallback_growth_threshold, 3);
    assert_eq!(cfg.neuron_growth_cooldown_ticks, 0);
    assert!(cfg.growth_enabled);
    assert!(cfg.neuron_growth_enabled);
    assert!(!cfg.layer_growth_enabled);
}

#[test]
fn neuron_counts_fallback_streak() {
    let mut neuron = Neuron::new(NeuronId(7), NeuronKind::Inhibitory, tight_config(), SlotDomain::Scalar);
    assert_eq!(neuron.id, NeuronId(7));
    assert_eq!(neuron.fallback_streak, 0);
    assert_eq!(neuron.observe_scalar(whole(10)), SlotId(0));
    assert!(!neuron.last_slot_used_fallback);
    assert_eq!(neuron.observe_scalar(whole(20)), SlotId::fallback());
    assert!(neuron.last_slot_used_fallback);
    assert_eq!(neuron.fallback_streak, 1);
    assert_eq!(neuron.observe_scalar(whole(30)), SlotId::fallback());
    assert_eq!(neuron.fallback_streak, 2);
    // a hit ends the streak
    assert_eq!(neuron.observe_scalar(whole(10)), SlotId(0));
    assert_eq!(neuron.fallback_streak, 0);
    assert!(!neuron.last_slot_used_fallback);
    assert_eq!(neuron.slot_engine.slots_len(), 1);
}

#[test]
fn neuron_streak_saturates() {
    let mut neuron = Neuron::new(NeuronId(0), NeuronKind::Excitatory, tight_config(), SlotDomain::Scalar);
    neuron.observe_scalar(whole(10));
    neuron.fallback_streak = u32::MAX;
    neuron.observe_scalar(whole(20));
    assert_eq!(neuron.fallback_streak, u32::MAX);
}

#[test]
fn neuron_two_d_uses_grid_engine() {
    let mut neuron = Neuron::new(NeuronId(0), NeuronKind::Modulatory, SlotConfig::default(), SlotDomain::TwoD);
    assert!(matches!(neuron.slot_engine.domain(), SlotDomain::TwoD));
    assert_eq!(neuron.observe_two_d(whole(3), whole(4)), SlotId(0));
    assert_eq!(neuron.observe_two_d(whole(3), whole(5)), SlotId(1));
    assert_eq!(neuron.observe_two_d(whole(3), whole(4)), SlotId(0));
    assert_eq!(neuron.fallback_streak, 0);
}

#[test]
fn neuron_end_tick_changes_nothing() {
    let mut layer = Layer::new_generic(LayerId(0), UNIT, SlotDomain::Scalar);
    layer.push_neuron(NeuronKind::Excitatory, tight_config());
    layer.neurons[0].observe_scalar(whole(10));
    layer.neurons[0].observe_scalar(whole(20));
    layer.bus.inhibition = 5;
    let Layer { neurons, bus, .. } = &mut layer;
    neurons[0].end_tick(bus);
    assert_eq!(layer.neurons[0].fallback_streak, 1);
    assert_eq!(layer.bus.inhibition, 5);
    assert_eq!(layer.bus.current_step, 0);
}

#[test]
fn layer_constructors() {
    let generic = Layer::new_generic(LayerId(3), 900_000_000, SlotDomain::Scalar);
    assert_eq!(generic.id, LayerId(3));
    assert_eq!(generic.kind, LayerKind::Generic);
    assert!(generic.neurons.is_empty());
    assert_eq!(generic.bus.decay_factor, 900_000_000);
    assert_eq!(generic.two_d_shape, None);
    assert_eq!(generic.grid_index_to_row_col(5), None);
    let grid = Layer::new_2d(LayerId(4), LayerKind::Input2D, UNIT, 3, 4);
    assert_eq!(grid.kind, LayerKind::Input2D);
    assert!(matches!(grid.domain, SlotDomain::TwoD));
    assert_eq!(grid.two_d_shape, Some((3, 4)));
    assert_eq!(grid.grid_index_to_row_col(0), Some((0, 0)));
    assert_eq!(grid.grid_index_to_row_col(7), Some((1, 3)));
    assert_eq!(grid.grid_index_to_row_col(11), Some((2, 3)));
}

#[test]
fn layer_push_and_copy_neurons() {
    let mut layer = Layer::new_generic(LayerId(0), UNIT, SlotDomain::Scalar);
    assert_eq!(layer.push_neuron(NeuronKind::Inhibitory, tight_config()), 0);
    assert_eq!(layer.push_neuron(NeuronKind::Excitatory, SlotConfig::default()), 1);
    assert_eq!(layer.add_neuron_same_kind(0), 2);
    assert_eq!(layer.neurons.len(), 3);
    assert_eq!(layer.neurons[2].id, NeuronId(2));
    assert_eq!(layer.neurons[2].kind, NeuronKind::Inhibitory);
    assert_eq!(layer.neurons[2].slot_cfg, tight_config());
    assert_eq!(layer.neurons[2].fallback_streak, 0);
    assert_eq!(layer.neurons[2].slot_engine.slots_len(), 0);
    assert!(matches!(layer.neurons[2].slot_engine.domain(), SlotDomain::Scalar));
}

fn streaking_layer(cfg: SlotConfig) -> Layer {
    let mut layer = Layer::new_generic(LayerId(0), 900_000_000, SlotDomain::Scalar);
    layer.push_neuron(NeuronKind::Excitatory, cfg);
    layer.push_neuron(NeuronKind::Inhibitory, cfg);
    for neuron in layer.neurons.iter_mut() {
        neuron.observe_scalar(whole(10));
    }
    layer
}

#[test]
fn layer_grows_first_neuron_that_asks() {
    let mut layer = streaking_layer(tight_config());
    // one fallback each: below the threshold of two
    layer.neurons[0].observe_scalar(whole(20));
    layer.neurons[1].observe_scalar(whole(20));
    assert_eq!(layer.end_tick_and_maybe_grow(), None);
    assert_eq!(layer.neurons.len(), 2);
    // the second neuron reaches the threshold first
    layer.neurons[1].observe_scalar(whole(30));
    assert_eq!(layer.end_tick_and_maybe_grow(), Some(2));
    assert_eq!(layer.neurons.len(), 3);
    assert_eq!(layer.neurons[2].kind, NeuronKind::Inhibitory);
    assert_eq!(layer.neurons[2].id, NeuronId(2));
    assert_eq!(layer.neurons[1].fallback_streak, 0);
    assert_eq!(layer.neurons[0].fallback_streak, 1);
    // nobody asks any more
    assert_eq!(layer.end_tick_and_maybe_grow(), None);
}

#[test]
fn layer_grows_at_most_one_neuron_per_tick() {
    let mut layer = streaking_layer(tight_config());
    for neuron in layer.neurons.iter_mut() {
        neuron.observe_scalar(whole(20));
        neuron.observe_scalar(whole(30));
    }
    assert_eq!(layer.end_tick_and_maybe_grow(), Some(2));
    assert_eq!(layer.neurons[2].kind, NeuronKind::Excitatory);
    assert_eq!(layer.neurons[0].fallback_streak, 0);
    assert_eq!(layer.neurons[1].fallback_streak, 2);
    assert_eq!(layer.end_tick_and_maybe_grow(), Some(3));
    assert_eq!(layer.neurons[3].kind, NeuronKind::Inhibitory);
    assert_eq!(layer.neurons.len(), 4);
}

#[test]
fn layer_growth_respects_cooldown_and_switch() {
    let cooled = SlotConfig { neuron_growth_cooldown_ticks: 3, ..tight_config() };
    let mut layer = streaking_layer(cooled);
    layer.neurons[0].observe_scalar(whole(20));
    layer.neurons[0].observe_scalar(whole(30));
    // step 0, last growth 0: the cooldown of three ticks has not passed
    layer.end_tick();
    layer.end_tick();
    assert_eq!(layer.neurons.len(), 2);
    assert_eq!(layer.bus.current_step, 2);
    layer.end_tick();
    assert_eq!(layer.neurons.len(), 2);
    // step 3: it has
    layer.end_tick();
    assert_eq!(layer.neurons.len(), 3);
    assert_eq!(layer.neurons[0].last_growth_step, 3);
    assert_eq!(layer.bus.current_step, 4);

    let off = SlotConfig { neuron_growth_enabled: false, ..tight_config() };
    let mut still = streaking_layer(off);
    still.neurons[0].observe_scalar(whole(20));
    still.neurons[0].observe_scalar(whole(30));
    assert_eq!(still.end_tick_and_maybe_grow(), None);
}

#[test]
fn layer_end_tick_decays_bus() {
    let mut layer = Layer::new_2d(LayerId(0), LayerKind::Output2D, 500_000_000, 2, 2);
    layer.bus.inhibition = 8 * UNIT;
    layer.bus.modulation = 3;
    layer.end_tick();
    assert_eq!(layer.bus.inhibition, 4 * UNIT);
    assert_eq!(layer.bus.modulation, UNIT as i64);
    assert_eq!(layer.bus.current_step, 1);
}
