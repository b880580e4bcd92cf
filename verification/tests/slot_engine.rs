use grownet_core::fixed::UNIT;
use grownet_core::ids::SlotId;
use grownet_core::slot_engine::{
    pack_bins, percent_bin, SlotDomain, SlotEngine, SlotSelection, MAX_BIN, PACK_STRIDE,
};

const BIN_WIDTH: u64 = 5 * UNIT;
const EPSILON: u64 = 1_000;

fn fixed(whole: i64, billionths: i64) -> i64 {
    whole * UNIT as i64 + billionths
}

#[test]
fn slot_engine_scalar_capacity_and_fallback() {
    let mut engine = SlotEngine::new_scalar(2, BIN_WIDTH, EPSILON);
    let _s1 = engine.observe_scalar(fixed(10, 0)); // anchor set
    assert!(!engine.last_slot_used_fallback);
    let _s2 = engine.observe_scalar(fixed(10, 500_000_000));
    assert!(!engine.last_slot_used_fallback);
    let _s3 = engine.observe_scalar(fixed(11, 0));
    assert!(engine.last_slot_used_fallback);
}

#[test]
fn slot_engine_scalar_exact_slots() {
    let mut engine = SlotEngine::new_scalar(2, BIN_WIDTH, EPSILON);
    let s1 = engine.observe_scalar(fixed(10, 0));
    assert_eq!(s1, SlotSelection { slot_id: SlotId(0), used_fallback: false });
    let s2 = engine.observe_scalar(fixed(10, 500_000_000));
    assert_eq!(s2, SlotSelection { slot_id: SlotId(1), used_fallback: false });
    let s3 = engine.observe_scalar(fixed(11, 0));
    assert_eq!(s3, SlotSelection { slot_id: SlotId::fallback(), used_fallback: true });
    assert_eq!(engine.slots_len(), 2);
    assert!(engine.is_at_capacity());
    // a known bin keeps its slot after the table is full
    let again = engine.observe_scalar(fixed(10, 0));
    assert_eq!(again, SlotSelection { slot_id: SlotId(0), used_fallback: false });
    assert!(!engine.last_slot_used_fallback);
    let again = engine.observe_scalar(fixed(10, 700_000_000));
    assert_eq!(again.slot_id, SlotId(1));
    assert_eq!(engine.slots_len(), 2);
}

#[test]
fn slot_engine_one_shot_reuse() {
    let mut engine = SlotEngine::new_scalar(1, BIN_WIDTH, EPSILON);
    let first = engine.observe_scalar(fixed(100, 0));
    assert_eq!(first.slot_id, SlotId(0));
    engine.freeze_last_slot();
    engine.unfreeze_last_slot();
    assert!(engine.prefer_last_slot_once);
    let reused = engine.observe_scalar(fixed(103, 0));
    assert_eq!(reused, SlotSelection { slot_id: SlotId(0), used_fallback: false });
    assert!(!engine.last_slot_used_fallback);
    assert!(!engine.prefer_last_slot_once);
    let next = engine.observe_scalar(fixed(110, 0));
    assert_eq!(next, SlotSelection { slot_id: SlotId::fallback(), used_fallback: true });
    assert!(engine.last_slot_used_fallback);
}

#[test]
fn slot_engine_reuse_needs_a_frozen_slot() {
    let mut engine = SlotEngine::new_scalar(1, BIN_WIDTH, EPSILON);
    engine.unfreeze_last_slot();
    let first = engine.observe_scalar(fixed(100, 0));
    assert_eq!(first.slot_id, SlotId(0));
    // nothing was frozen, so the preference is still pending
    assert!(engine.prefer_last_slot_once);
    let far = engine.observe_scalar(fixed(200, 0));
    assert!(far.used_fallback);
}

#[test]
fn slot_engine_frozen_fallback_is_reused_as_a_value() {
    let mut engine = SlotEngine::new_scalar(1, BIN_WIDTH, EPSILON);
    engine.observe_scalar(fixed(100, 0));
    let denied = engine.observe_scalar(fixed(200, 0));
    assert!(denied.used_fallback);
    engine.freeze_last_slot();
    engine.unfreeze_last_slot();
    let reused = engine.observe_scalar(fixed(100, 0));
    assert_eq!(reused, SlotSelection { slot_id: SlotId::fallback(), used_fallback: false });
}

#[test]
fn slot_engine_bootstrap_ignores_zero_capacity() {
    let mut engine = SlotEngine::new_scalar(0, BIN_WIDTH, EPSILON);
    assert!(engine.is_at_capacity());
    let first = engine.observe_scalar(fixed(1, 0));
    assert_eq!(first, SlotSelection { slot_id: SlotId(0), used_fallback: false });
    assert_eq!(engine.slots_len(), 1);
    let second = engine.observe_scalar(fixed(2, 0));
    assert!(second.used_fallback);
    assert_eq!(engine.slots_len(), 1);
}

#[test]
fn slot_engine_anchor_latches_first_value() {
    let mut engine = SlotEngine::new_scalar(8, BIN_WIDTH, EPSILON);
    assert_eq!(engine.observe_scalar(fixed(10, 0)).slot_id, SlotId(0));
    // 20 is 100 % away from the anchor 10: bin 20
    assert_eq!(engine.observe_scalar(fixed(20, 0)).slot_id, SlotId(1));
    // had the anchor moved to 20, 10 would fall in bin 10; it is bin 0
    assert_eq!(engine.observe_scalar(fixed(10, 0)).slot_id, SlotId(0));
    // below the anchor counts like above it
    assert_eq!(engine.observe_scalar(0).slot_id, SlotId(1));
}

#[test]
fn slot_engine_two_d_observation() {
    let mut engine = SlotEngine::new_two_d(3, BIN_WIDTH, EPSILON);
    assert!(matches!(engine.domain(), SlotDomain::TwoD));
    let first = engine.observe_two_d(fixed(10, 0), fixed(20, 0));
    assert_eq!(first.slot_id, SlotId(0));
    // same row bin, column one bin away
    let second = engine.observe_two_d(fixed(10, 0), fixed(21, 0));
    assert_eq!(second.slot_id, SlotId(1));
    // the first key again
    let third = engine.observe_two_d(fixed(10, 100_000_000), fixed(20, 0));
    assert_eq!(third.slot_id, SlotId(0));
    let fourth = engine.observe_two_d(fixed(11, 0), fixed(20, 0));
    assert_eq!(fourth.slot_id, SlotId(2));
    let fifth = engine.observe_two_d(fixed(12, 0), fixed(24, 0));
    assert!(fifth.used_fallback);
    assert_eq!(engine.slots_len(), 3);
}

#[test]
fn slot_engine_scalar_domain() {
    let engine = SlotEngine::new_scalar(4, BIN_WIDTH, EPSILON);
    assert!(matches!(engine.domain(), SlotDomain::Scalar));
    assert_eq!(engine.slots_len(), 0);
    assert!(!engine.is_at_capacity());
    assert!(!engine.last_slot_used_fallback);
    assert!(!engine.prefer_last_slot_once);
}

#[test]
fn percent_bin_exact_values() {
    let ten = fixed(10, 0);
    assert_eq!(percent_bin(ten, ten, EPSILON, BIN_WIDTH), 0);
    assert_eq!(percent_bin(fixed(10, 499_999_999), ten, EPSILON, BIN_WIDTH), 0);
    assert_eq!(percent_bin(fixed(10, 500_000_000), ten, EPSILON, BIN_WIDTH), 1);
    assert_eq!(percent_bin(fixed(11, 0), ten, EPSILON, BIN_WIDTH), 2);
    assert_eq!(percent_bin(fixed(9, 0), ten, EPSILON, BIN_WIDTH), 2);
    assert_eq!(percent_bin(fixed(103, 0), fixed(100, 0), EPSILON, BIN_WIDTH), 0);
    assert_eq!(percent_bin(fixed(110, 0), fixed(100, 0), EPSILON, BIN_WIDTH), 2);
    // negative anchor: its magnitude is the scale
    assert_eq!(percent_bin(fixed(-9, 0), fixed(-10, 0), EPSILON, BIN_WIDTH), 2);
}

#[test]
fn percent_bin_uses_epsilon_near_zero() {
    // anchor 0: the scale is epsilon (one millionth); 0.000001 away is 100 %
    assert_eq!(percent_bin(1_000, 0, EPSILON, BIN_WIDTH), 20);
    assert_eq!(percent_bin(UNIT as i64, 0, EPSILON, BIN_WIDTH), 20_000_000);
}

#[test]
fn percent_bin_degenerate_divisors() {
    // no scale at all: any distance is the largest bin, none is bin zero
    assert_eq!(percent_bin(5, 0, 0, BIN_WIDTH), MAX_BIN);
    assert_eq!(percent_bin(0, 0, 0, BIN_WIDTH), 0);
    assert_eq!(percent_bin(fixed(11, 0), fixed(10, 0), EPSILON, 0), MAX_BIN);
    assert_eq!(percent_bin(fixed(10, 0), fixed(10, 0), EPSILON, 0), 0);
}

#[test]
fn percent_bin_saturates() {
    assert_eq!(percent_bin(i64::MAX, i64::MIN, 1, 1), 199_999_999_999);
    assert_eq!(percent_bin(i64::MAX, 0, 1, 1), MAX_BIN);
    assert_eq!(MAX_BIN, i64::MAX);
}

#[test]
fn pack_bins_exact_values() {
    assert_eq!(PACK_STRIDE, 100_000);
    assert_eq!(pack_bins(0, 0), 0);
    assert_eq!(pack_bins(3, 7), 300_007);
    assert_eq!(pack_bins(1, 100_000), 200_000);
    assert_eq!(pack_bins(MAX_BIN, 0), i64::MAX);
    assert_eq!(pack_bins(MAX_BIN, MAX_BIN), i64::MAX);
}

#[test]
fn slot_id_fallback_is_largest_value() {
    assert_eq!(SlotId::fallback(), SlotId(u32::MAX));
    assert!(SlotId::fallback().is_fallback());
    assert!(!SlotId(0).is_fallback());
    assert_eq!(SlotId::FALLBACK_RAW, u32::MAX);
}

#[test]
fn slot_engine_flag_getters_follow_the_flags() {
    let mut engine = SlotEngine::new_scalar(1, BIN_WIDTH, EPSILON);
    assert!(!engine.last_slot_used_fallback());
    assert!(!engine.prefer_last_slot_once());
    engine.observe_scalar(fixed(10, 0));
    engine.observe_scalar(fixed(20, 0));
    assert!(engine.last_slot_used_fallback());
    engine.freeze_last_slot();
    engine.unfreeze_last_slot();
    assert!(engine.prefer_last_slot_once());
    engine.observe_scalar(fixed(10, 0));
    assert!(!engine.prefer_last_slot_once());
    assert!(!engine.last_slot_used_fallback());
}
