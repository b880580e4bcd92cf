use grownet_core::bus::LateralBus;
use grownet_core::fixed::{scale, to_fixed, UNIT};

#[test]
fn bus_decay_parity() {
    let mut bus = LateralBus::new(900_000_000);
    bus.inhibition = 10 * UNIT;
    bus.modulation = 300_000_000;
    let before_step = bus.current_step;
    bus.decay();
    let inhibition = bus.inhibition as f64 / UNIT as f64;
    let modulation = bus.modulation as f64 / UNIT as f64;
    assert!((inhibition - 9.0).abs() < 1e-9);
    assert!((modulation - 1.0).abs() < 1e-12);
    assert_eq!(bus.current_step, before_step + 1);
}

#[test]
fn bus_starts_at_rest() {
    let bus = LateralBus::new(950_000_000);
    assert_eq!(bus.inhibition, 0);
    assert_eq!(bus.modulation, UNIT as i64);
    assert_eq!(bus.current_step, 0);
    assert_eq!(bus.decay_factor, 950_000_000);
}

#[test]
fn bus_decay_exact_values() {
    let mut bus = LateralBus::new(900_000_000);
    bus.inhibition = 10 * UNIT;
    bus.decay();
    assert_eq!(bus.inhibition, 9 * UNIT);
    bus.decay();
    assert_eq!(bus.inhibition, 8_100_000_000);
    assert_eq!(bus.current_step, 2);
    assert_eq!(bus.decay_factor, 900_000_000);
}

#[test]
fn bus_decay_rounds_down_within_one_unit() {
    let mut bus = LateralBus::new(333_333_333);
    bus.inhibition = 7;
    bus.decay();
    // 7 * 0.333333333 = 2.33..., held as 2
    assert_eq!(bus.inhibition, 2);
}

#[test]
fn bus_step_saturates() {
    let mut bus = LateralBus::new(UNIT);
    bus.current_step = u64::MAX;
    bus.inhibition = 5;
    bus.decay();
    assert_eq!(bus.current_step, u64::MAX);
    assert_eq!(bus.inhibition, 5);
}

#[test]
fn bus_decay_with_factor_above_one_saturates() {
    let mut bus = LateralBus::new(3 * UNIT);
    bus.inhibition = u64::MAX;
    bus.decay();
    assert_eq!(bus.inhibition, u64::MAX);
    let mut small = LateralBus::new(3 * UNIT);
    small.inhibition = 4;
    small.decay();
    assert_eq!(small.inhibition, 12);
}

#[test]
fn scale_multiplies_in_fixed_point() {
    assert_eq!(scale(10 * UNIT, UNIT / 2), 5 * UNIT);
    assert_eq!(scale(0, UNIT), 0);
    assert_eq!(scale(123, UNIT), 123);
    assert_eq!(scale(u64::MAX, u64::MAX), u64::MAX);
}

#[test]
fn to_fixed_scales_and_saturates() {
    assert_eq!(to_fixed(0), 0);
    assert_eq!(to_fixed(3), 3_000_000_000);
    assert_eq!(to_fixed(9_223_372_036), 9_223_372_036_000_000_000);
    assert_eq!(to_fixed(9_223_372_037), i64::MAX);
    assert_eq!(to_fixed(usize::MAX), i64::MAX);
}
