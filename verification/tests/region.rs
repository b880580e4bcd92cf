use grownet_core::fixed::UNIT;
use grownet_core::ids::LayerId;
use grownet_core::layer::LayerKind;
use grownet_core::mesh::MeshRule;
use grownet_core::region::{GrowthPolicy, Region, RegionMetrics};
use grownet_core::slot_config::SlotConfig;
use grownet_core::slot_engine::SlotDomain;
use grownet_core::window::Padding;

const DECAY: u64 = 950_000_000;

fn pixels(values: &[u64]) -> Vec<u64> {
    values.iter().map(|v| v * UNIT).collect()
}

#[test]
fn region_tick_2d_delivered_and_metrics() {
    let mut region = Region::new(1234);
    let src = region.add_input_layer_2d(4, 4, DECAY);
    let dst = region.add_output_layer_2d(4, 4, DECAY);
    // Connect with 3x3 SAME window
    let unique_sources = region.connect_layers_windowed(src, dst, 3, 3, 1, 1, Padding::Same);
    assert!(unique_sources > 0);

    let frame: Vec<u64> = vec![0; 16];
    let mut frame_active = frame.clone();
    frame_active[5] = UNIT; // one active pixel

    let metrics = region.tick_2d(&frame_active, 4, 4);
    assert!(metrics.delivered_events > 0);
    assert!(metrics.total_synapses > 0);
    assert!(metrics.spatial.is_some());
}

#[test]
fn neuron_growth_on_fallback_streak() {
    let mut region = Region::new(1234);
    let src = region.add_input_layer_2d(2, 2, DECAY);
    region.seed_simple_layer(
        src,
        1,
        SlotConfig {
            slot_limit: 1,
            fallback_growth_threshold: 2,
            neuron_growth_cooldown_ticks: 0,
            ..Default::default()
        },
    );
    // Create repeated fallback: with slot_limit=1 and changing bins
    let frame1 = pixels(&[1, 2, 3, 4]);
    let _m1 = region.tick_2d(&frame1, 2, 2);
    let frame2 = pixels(&[10, 20, 30, 40]);
    let _m2 = region.tick_2d(&frame2, 2, 2);
    // After two consecutive fallbacks, one growth in that layer should have happened (end_tick escalation)
    assert!(region.layers[src].neurons.len() >= 2);
}

#[test]
fn region_growth_or_trigger() {
    let mut region = Region::new(1234);
    let src = region.add_input_layer_2d(3, 3, DECAY);
    // Seed enough neurons with small capacity to push avg slots up
    region.seed_simple_layer(src, 4, SlotConfig { slot_limit: 1, ..Default::default() });
    // Aggressive policy
    region.growth_policy = GrowthPolicy {
        avg_slots_threshold: Some(UNIT / 2),
        percent_at_cap_fallback_threshold: 0,
        max_layers: 64,
        layer_cooldown_ticks: 0,
    };
    let frame = vec![UNIT; 9];
    let _m = region.tick_2d(&frame, 3, 3);
    // Should have added at least one layer via region growth
    assert!(region.layers.len() >= 2);
}

#[test]
fn region_one_growth_per_tick() {
    let mut region = Region::new(1234);
    let src = region.add_input_layer_2d(4, 4, DECAY);
    let dst = region.add_output_layer_2d(4, 4, DECAY);
    region.connect_layers_windowed(src, dst, 3, 3, 1, 1, Padding::Same);

    region.growth_policy = GrowthPolicy {
        avg_slots_threshold: Some(0),
        percent_at_cap_fallback_threshold: 2 * UNIT, // off
        max_layers: 64,
        layer_cooldown_ticks: 0,
    };

    let frame = vec![UNIT; 16];
    let mut prev_layer_count = region.layers.len();
    for _ in 0..5 {
        let metrics = region.tick_2d(&frame, 4, 4);
        assert!(metrics.delivered_events > 0);
        let now_layer_count = region.layers.len();
        assert!(now_layer_count >= prev_layer_count);
        assert!(now_layer_count - prev_layer_count <= 1);
        prev_layer_count = now_layer_count;
    }
}

#[test]
fn region_starts_empty_with_default_policy() {
    let region = Region::new(7);
    assert!(region.layers.is_empty());
    assert!(region.mesh_rules.is_empty());
    assert!(region.tracts.is_empty());
    assert_eq!(region.last_layer_growth_step, 0);
    assert!(region.spatial_metrics_enabled);
    let policy = GrowthPolicy::default();
    assert_eq!(region.growth_policy, policy);
    assert_eq!(policy.avg_slots_threshold, None);
    assert_eq!(policy.percent_at_cap_fallback_threshold, 2 * UNIT);
    assert_eq!(policy.max_layers, usize::MAX);
    assert_eq!(policy.layer_cooldown_ticks, 500);
    let mut rng = region.rng;
    assert_eq!(rng.next_u64(), grownet_core::rng::DeterministicRng::new(7).next_u64());
    assert_eq!(
        RegionMetrics::default(),
        RegionMetrics { delivered_events: 0, total_slots: 0, total_synapses: 0, spatial: None }
    );
}

#[test]
fn region_adds_layers_in_order() {
    let mut region = Region::new(1);
    assert_eq!(region.add_generic_layer(900_000_000, SlotDomain::Scalar), 0);
    assert_eq!(region.add_input_layer_2d(2, 3, DECAY), 1);
    assert_eq!(region.add_output_layer_2d(4, 5, UNIT), 2);
    assert_eq!(region.layers[0].kind, LayerKind::Generic);
    assert_eq!(region.layers[0].id, LayerId(0));
    assert_eq!(region.layers[0].two_d_shape, None);
    assert_eq!(region.layers[0].bus.decay_factor, 900_000_000);
    assert_eq!(region.layers[1].kind, LayerKind::Input2D);
    assert_eq!(region.layers[1].two_d_shape, Some((2, 3)));
    assert_eq!(region.layers[2].kind, LayerKind::Output2D);
    assert_eq!(region.layers[2].id, LayerId(2));
    assert_eq!(region.layers[2].two_d_shape, Some((4, 5)));
}

#[test]
fn region_connect_layers_records_rule() {
    let mut region = Region::new(1);
    let a = region.add_generic_layer(UNIT, SlotDomain::Scalar);
    let b = region.add_generic_layer(UNIT, SlotDomain::Scalar);
    region.connect_layers(b, a, UNIT / 4, true);
    assert_eq!(
        region.mesh_rules,
        vec![MeshRule { src: LayerId(1), dst: LayerId(0), probability: UNIT / 4, feedback: true }]
    );
    assert!(region.tracts.is_empty());
}

#[test]
fn region_connect_windowed_registers_tract() {
    let mut region = Region::new(1);
    let src = region.add_input_layer_2d(8, 8, DECAY);
    let dst = region.add_output_layer_2d(8, 8, DECAY);
    let unique = region.connect_layers_windowed(src, dst, 5, 5, 2, 2, Padding::Same);
    assert_eq!(unique, 64);
    assert_eq!(region.tracts.len(), 1);
    assert_eq!(region.tracts[0].source_layer_index, src);
    assert_eq!(region.tracts[0].dest_layer_index, dst);
    assert_eq!(region.tracts[0].mapping.out_height, 4);
    assert_eq!(region.tracts[0].source_height, 8);
    assert_eq!(region.tracts[0].stride_width, 2);
    assert!(region.mesh_rules.is_empty());
}

#[test]
fn region_seed_simple_layer_appends_neurons() {
    let mut region = Region::new(1);
    let layer = region.add_generic_layer(UNIT, SlotDomain::Scalar);
    let cfg = SlotConfig { slot_limit: 3, ..Default::default() };
    region.seed_simple_layer(layer, 5, cfg);
    region.seed_simple_layer(layer, 0, cfg);
    assert_eq!(region.layers[layer].neurons.len(), 5);
    assert_eq!(region.layers[layer].neurons[4].slot_cfg, cfg);
    assert_eq!(region.layers[layer].neurons[4].id, grownet_core::ids::NeuronId(4));
    assert_eq!(
        region.layers[layer].neurons[4].kind,
        grownet_core::neuron::NeuronKind::Excitatory
    );
}

#[test]
fn region_tick_exact_metrics() {
    let mut region = Region::new(1234);
    let src = region.add_input_layer_2d(4, 4, DECAY);
    let dst = region.add_output_layer_2d(4, 4, DECAY);
    assert_eq!(region.connect_layers_windowed(src, dst, 3, 3, 1, 1, Padding::Same), 16);
    let mut frame = vec![0u64; 16];
    frame[5] = UNIT;
    let metrics = region.tick_2d(&frame, 4, 4);
    // every pixel's neuron fires on its own position, whatever the pixel holds:
    // 4 corners reach 4 windows, 8 edge cells 6, 4 inner cells 9
    assert_eq!(metrics.delivered_events, 100);
    assert_eq!(metrics.total_synapses, 100);
    assert_eq!(metrics.total_slots, 16);
    let spatial = metrics.spatial.unwrap();
    // the summary is that of the output frame, which every window reached
    assert_eq!(spatial.active_count, 16);
    assert_eq!((spatial.min_row, spatial.max_row), (0, 3));
    assert_eq!((spatial.min_col, spatial.max_col), (0, 3));
    assert_eq!(spatial.row_sum, 24);
    assert_eq!(spatial.col_sum, 24);
    // each cell of the output frame counts the sources of its window
    assert_eq!(
        region.last_output_frame,
        Some((vec![4, 6, 6, 4, 6, 9, 9, 6, 6, 9, 9, 6, 4, 6, 6, 4], 4, 4))
    );
    assert_eq!(region.layers[src].neurons.len(), 16);
    assert_eq!(region.layers[dst].neurons.len(), 0);
    assert_eq!(region.layers[src].bus.current_step, 1);
    assert_eq!(region.layers[dst].bus.current_step, 1);
    assert_eq!(region.layers.len(), 2);
    // a second tick observes the same positions: same bins, same metrics
    let again = region.tick_2d(&frame, 4, 4);
    assert_eq!(again.delivered_events, 100);
    assert_eq!(again.total_slots, 16);
    assert_eq!(region.layers[src].neurons.len(), 16);
}

#[test]
fn region_tick_skips_frame_of_other_shape() {
    let mut region = Region::new(1234);
    let src = region.add_input_layer_2d(4, 4, DECAY);
    let dst = region.add_output_layer_2d(4, 4, DECAY);
    region.connect_layers_windowed(src, dst, 3, 3, 1, 1, Padding::Same);
    let mut frame = vec![0u64; 6];
    frame[4] = 3;
    let metrics = region.tick_2d(&frame, 2, 3);
    assert_eq!(metrics.delivered_events, 0);
    assert_eq!(metrics.total_slots, 0);
    assert_eq!(metrics.total_synapses, 100);
    assert!(region.layers[src].neurons.is_empty());
    // nothing was delivered: the summary is that of the input frame
    let spatial = metrics.spatial.unwrap();
    assert_eq!(spatial.active_count, 1);
    assert_eq!((spatial.min_row, spatial.min_col), (1, 1));
    // the tick still ended: buses decayed
    assert_eq!(region.layers[src].bus.current_step, 1);
}

#[test]
fn region_tick_without_input_layer() {
    let mut region = Region::new(1);
    region.add_generic_layer(UNIT, SlotDomain::Scalar);
    let frame = vec![0u64; 4];
    let metrics = region.tick_2d(&frame, 2, 2);
    assert_eq!(metrics.delivered_events, 0);
    assert_eq!(metrics.total_slots, 0);
    assert_eq!(metrics.total_synapses, 0);
    assert_eq!(metrics.spatial.unwrap().active_count, 0);
    assert_eq!(region.layers.len(), 1);
}

#[test]
fn region_tick_uses_last_input_layer() {
    let mut region = Region::new(1);
    let first = region.add_input_layer_2d(2, 2, DECAY);
    let last = region.add_input_layer_2d(2, 2, DECAY);
    let frame = vec![UNIT; 4];
    let metrics = region.tick_2d(&frame, 2, 2);
    assert!(region.layers[first].neurons.is_empty());
    assert_eq!(region.layers[last].neurons.len(), 4);
    assert_eq!(metrics.total_slots, 4);
}

#[test]
fn region_tick_without_spatial_metrics() {
    let mut region = Region::new(1);
    region.add_input_layer_2d(2, 2, DECAY);
    region.spatial_metrics_enabled = false;
    let frame = vec![UNIT; 4];
    let metrics = region.tick_2d(&frame, 2, 2);
    assert_eq!(metrics.spatial, None);
    assert_eq!(metrics.total_slots, 4);
}

#[test]
fn region_tick_without_spatial_metrics_reads_no_pixel() {
    let mut region = Region::new(1);
    let src = region.add_input_layer_2d(2, 2, DECAY);
    let dst = region.add_generic_layer(UNIT, SlotDomain::Scalar);
    region.connect_layers_windowed(src, dst, 3, 3, 1, 1, Padding::Same);
    region.spatial_metrics_enabled = false;
    let frame: Vec<u64> = Vec::new();
    let metrics = region.tick_2d(&frame, 2, 2);
    assert_eq!(metrics.delivered_events, 16);
    assert_eq!(metrics.spatial, None);
}

#[test]
fn region_tick_falls_back_to_input_summary() {
    // input grid without tracts: no output frame is captured
    let mut region = Region::new(1);
    region.add_input_layer_2d(2, 3, DECAY);
    let frame = vec![0, 0, 5, 0, 0, 9];
    let metrics = region.tick_2d(&frame, 2, 3);
    let spatial = metrics.spatial.unwrap();
    assert_eq!(spatial.active_count, 2);
    assert_eq!((spatial.min_row, spatial.max_row), (0, 1));
    assert_eq!((spatial.min_col, spatial.max_col), (2, 2));
    assert_eq!(spatial.row_sum, 1);
    assert_eq!(spatial.col_sum, 4);
}

#[test]
fn region_tick_counts_events_into_generic_layers_without_frame() {
    let mut region = Region::new(1);
    let src = region.add_input_layer_2d(2, 2, DECAY);
    let dst = region.add_generic_layer(UNIT, SlotDomain::Scalar);
    region.connect_layers_windowed(src, dst, 1, 1, 1, 1, Padding::Same);
    let frame = vec![0, 0, 0, 7];
    let metrics = region.tick_2d(&frame, 2, 2);
    assert_eq!(metrics.delivered_events, 4);
    assert_eq!(metrics.total_synapses, 4);
    assert_eq!(region.last_output_frame, None);
    let spatial = metrics.spatial.unwrap();
    assert_eq!(spatial.active_count, 1);
    assert_eq!((spatial.min_row, spatial.min_col), (1, 1));
}

#[test]
fn region_tick_adds_events_of_two_tracts() {
    let mut region = Region::new(1);
    let src = region.add_input_layer_2d(2, 2, DECAY);
    let dst = region.add_output_layer_2d(2, 2, DECAY);
    region.connect_layers_windowed(src, dst, 1, 1, 1, 1, Padding::Same);
    region.connect_layers_windowed(src, dst, 3, 3, 1, 1, Padding::Same);
    let frame = vec![0u64; 4];
    let metrics = region.tick_2d(&frame, 2, 2);
    // 4 by the identity tract, 16 by the tract whose windows cover the grid
    assert_eq!(metrics.delivered_events, 20);
    assert_eq!(metrics.total_synapses, 20);
    assert_eq!(metrics.spatial.unwrap().active_count, 4);
    assert_eq!(region.last_output_frame, Some((vec![5, 5, 5, 5], 2, 2)));
}

#[test]
fn region_growth_exact_result() {
    let mut region = Region::new(1234);
    let src = region.add_input_layer_2d(3, 3, DECAY);
    region.seed_simple_layer(src, 4, SlotConfig { slot_limit: 1, ..Default::default() });
    region.growth_policy = GrowthPolicy {
        avg_slots_threshold: Some(UNIT / 2),
        percent_at_cap_fallback_threshold: 2 * UNIT,
        max_layers: 64,
        layer_cooldown_ticks: 0,
    };
    let frame = vec![UNIT; 9];
    let metrics = region.tick_2d(&frame, 3, 3);
    // the 4 seeded neurons stay, 5 are added: one neuron and one slot per pixel
    assert_eq!(region.layers[src].neurons.len(), 9);
    assert_eq!(metrics.total_slots, 9);
    assert_eq!(region.layers.len(), 2);
    assert_eq!(region.layers[1].kind, LayerKind::Output2D);
    assert_eq!(region.layers[1].id, LayerId(1));
    assert_eq!(region.layers[1].two_d_shape, Some((3, 3)));
    assert_eq!(region.layers[1].bus.decay_factor, DECAY);
    assert_eq!(region.layers[1].bus.current_step, 0);
    assert!(region.layers[1].neurons.is_empty());
    assert_eq!(
        region.mesh_rules,
        vec![MeshRule { src: LayerId(0), dst: LayerId(1), probability: UNIT, feedback: false }]
    );
    assert_eq!(region.last_layer_growth_step, 1);
}

#[test]
fn region_average_trigger_compares_exactly() {
    // 9 slots over 13 neurons: 9 in the grid, 4 idle in a generic layer
    for (threshold, grows) in [(692_307_692, true), (692_307_693, false)] {
        let mut region = Region::new(1);
        region.add_input_layer_2d(3, 3, DECAY);
        let idle = region.add_generic_layer(DECAY, SlotDomain::Scalar);
        region.seed_simple_layer(idle, 4, SlotConfig::default());
        region.growth_policy = GrowthPolicy {
            avg_slots_threshold: Some(threshold),
            percent_at_cap_fallback_threshold: 2 * UNIT,
            max_layers: 64,
            layer_cooldown_ticks: 0,
        };
        region.tick_2d(&vec![0u64; 9], 3, 3);
        assert_eq!(region.layers.len() == 3, grows);
    }
}

#[test]
fn region_does_not_grow_by_default() {
    let mut region = Region::new(1);
    region.add_input_layer_2d(2, 2, DECAY);
    let frame = vec![UNIT; 4];
    for _ in 0..3 {
        region.tick_2d(&frame, 2, 2);
    }
    assert_eq!(region.layers.len(), 1);
    assert!(region.mesh_rules.is_empty());
}

#[test]
fn region_growth_stops_at_layer_cap() {
    let mut region = Region::new(1);
    region.add_input_layer_2d(2, 2, DECAY);
    region.growth_policy = GrowthPolicy {
        avg_slots_threshold: Some(0),
        percent_at_cap_fallback_threshold: 2 * UNIT,
        max_layers: 3,
        layer_cooldown_ticks: 0,
    };
    let frame = vec![UNIT; 4];
    for _ in 0..6 {
        region.tick_2d(&frame, 2, 2);
    }
    assert_eq!(region.layers.len(), 3);
}

#[test]
fn region_growth_waits_for_cooldown() {
    let mut region = Region::new(1);
    region.add_input_layer_2d(2, 2, DECAY);
    region.growth_policy = GrowthPolicy {
        avg_slots_threshold: Some(0),
        percent_at_cap_fallback_threshold: 2 * UNIT,
        max_layers: 64,
        layer_cooldown_ticks: 2,
    };
    let frame = vec![UNIT; 4];
    let mut counts = Vec::new();
    for _ in 0..5 {
        region.tick_2d(&frame, 2, 2);
        counts.push(region.layers.len());
    }
    assert_eq!(counts, vec![1, 2, 2, 3, 3]);
    assert_eq!(region.last_layer_growth_step, 4);
}

#[test]
fn region_saturation_trigger_on_empty_region_needs_a_layer() {
    let mut region = Region::new(1);
    region.growth_policy = GrowthPolicy {
        avg_slots_threshold: None,
        percent_at_cap_fallback_threshold: 0,
        max_layers: 64,
        layer_cooldown_ticks: 0,
    };
    let frame: Vec<u64> = Vec::new();
    region.tick_2d(&frame, 0, 0);
    assert!(region.layers.is_empty());
    region.add_generic_layer(700_000_000, SlotDomain::Scalar);
    region.tick_2d(&frame, 0, 0);
    // the share of nothing is zero, which reaches a threshold of zero
    assert_eq!(region.layers.len(), 2);
    assert_eq!(region.layers[1].kind, LayerKind::Generic);
    assert_eq!(region.layers[1].two_d_shape, None);
    assert_eq!(region.layers[1].bus.decay_factor, 700_000_000);
    assert!(matches!(region.layers[1].domain, SlotDomain::Scalar));
}

#[test]
fn region_grows_from_layer_under_highest_pressure() {
    let tight = SlotConfig { slot_limit: 1, ..Default::default() };
    let mut region = Region::new(1);
    let calm = region.add_generic_layer(900_000_000, SlotDomain::Scalar);
    let half = region.add_generic_layer(800_000_000, SlotDomain::Scalar);
    let full = region.add_generic_layer(700_000_000, SlotDomain::Scalar);
    let also_full = region.add_generic_layer(600_000_000, SlotDomain::Scalar);
    region.seed_simple_layer(calm, 2, tight);
    region.seed_simple_layer(half, 2, tight);
    region.seed_simple_layer(full, 1, tight);
    region.seed_simple_layer(also_full, 3, tight);
    let one = UNIT as i64;
    // saturate: fill the only slot, then fall back
    for (layer, count) in [(half, 1), (full, 1), (also_full, 3)] {
        for neuron in region.layers[layer].neurons.iter_mut().take(count) {
            neuron.observe_scalar(10 * one);
            neuron.observe_scalar(20 * one);
        }
    }
    region.growth_policy = GrowthPolicy {
        avg_slots_threshold: None,
        percent_at_cap_fallback_threshold: UNIT / 2,
        max_layers: 64,
        layer_cooldown_ticks: 0,
    };
    let frame: Vec<u64> = Vec::new();
    let metrics = region.tick_2d(&frame, 0, 0);
    // 5 of 8 neurons are saturated; the first layer with share one is the seed
    assert_eq!(metrics.total_slots, 5);
    assert_eq!(region.layers.len(), 5);
    assert_eq!(region.layers[4].bus.decay_factor, 700_000_000);
    assert_eq!(region.mesh_rules.len(), 1);
    assert_eq!(region.mesh_rules[0].src, LayerId(2));
    assert_eq!(region.mesh_rules[0].dst, LayerId(4));
}

#[test]
fn region_saturation_trigger_compares_exactly() {
    let tight = SlotConfig { slot_limit: 1, ..Default::default() };
    for (threshold, grows) in [(333_333_333, true), (333_333_334, false)] {
        let mut region = Region::new(1);
        let layer = region.add_generic_layer(UNIT, SlotDomain::Scalar);
        region.seed_simple_layer(layer, 3, tight);
        let one = UNIT as i64;
        region.layers[layer].neurons[1].observe_scalar(10 * one);
        region.layers[layer].neurons[1].observe_scalar(20 * one);
        region.growth_policy = GrowthPolicy {
            avg_slots_threshold: None,
            percent_at_cap_fallback_threshold: threshold,
            max_layers: 64,
            layer_cooldown_ticks: 0,
        };
        let frame: Vec<u64> = Vec::new();
        region.tick_2d(&frame, 0, 0);
        assert_eq!(region.layers.len() == 2, grows);
    }
}

#[test]
fn region_injection_fills_a_partly_seeded_grid() {
    let tight = SlotConfig { slot_limit: 1, ..Default::default() };
    let mut region = Region::new(1);
    let src = region.add_input_layer_2d(2, 2, DECAY);
    region.seed_simple_layer(src, 1, tight);
    let frame = vec![UNIT; 4];
    let metrics = region.tick_2d(&frame, 2, 2);
    // the seeded neuron stays in place; three are added for the other pixels
    assert_eq!(region.layers[src].neurons.len(), 4);
    assert_eq!(region.layers[src].neurons[0].slot_cfg, tight);
    assert_eq!(region.layers[src].neurons[1].slot_cfg, SlotConfig::default());
    assert_eq!(region.layers[src].neurons[3].id, grownet_core::ids::NeuronId(3));
    assert_eq!(metrics.total_slots, 4);
    // later ticks add none
    region.tick_2d(&frame, 2, 2);
    region.tick_2d(&frame, 2, 2);
    assert_eq!(region.layers[src].neurons.len(), 4);
}

#[test]
fn region_injection_leaves_a_full_grid_alone() {
    let wide = SlotConfig { slot_limit: 3, ..Default::default() };
    let mut region = Region::new(1);
    let src = region.add_input_layer_2d(2, 2, DECAY);
    region.seed_simple_layer(src, 4, wide);
    let frame = vec![UNIT; 4];
    region.tick_2d(&frame, 2, 2);
    assert_eq!(region.layers[src].neurons.len(), 4);
    for neuron in region.layers[src].neurons.iter() {
        assert_eq!(neuron.slot_cfg, wide);
        assert_eq!(neuron.slot_engine.slots_len(), 1);
    }
}

#[test]
fn region_injection_into_an_overfull_grid_adds_a_grid() {
    let mut region = Region::new(1);
    let src = region.add_input_layer_2d(2, 2, DECAY);
    region.seed_simple_layer(src, 5, SlotConfig::default());
    let frame = vec![UNIT; 4];
    let metrics = region.tick_2d(&frame, 2, 2);
    assert_eq!(region.layers[src].neurons.len(), 9);
    // the first four neurons stand for the pixels
    assert_eq!(metrics.total_slots, 4);
}

#[test]
fn region_tick_accepts_a_smaller_later_tract() {
    let mut region = Region::new(1);
    let src = region.add_input_layer_2d(4, 4, DECAY);
    let dst = region.add_output_layer_2d(4, 4, DECAY);
    // the first tract captures a 4 by 4 frame; the second has 2 by 2 cells
    assert_eq!(region.connect_layers_windowed(src, dst, 1, 1, 1, 1, Padding::Same), 16);
    assert_eq!(region.connect_layers_windowed(src, dst, 1, 1, 2, 2, Padding::Same), 4);
    let frame = vec![0u64; 16];
    let metrics = region.tick_2d(&frame, 4, 4);
    // 16 events by the identity tract, 4 by the tract that samples every other cell
    assert_eq!(metrics.delivered_events, 20);
    assert_eq!(metrics.total_synapses, 20);
    assert_eq!(
        region.last_output_frame,
        Some((vec![2, 2, 2, 2, 1, 1, 1, 1, 1, 1, 1, 1, 1, 1, 1, 1], 4, 4))
    );
    assert_eq!(metrics.spatial.unwrap().active_count, 16);
}
