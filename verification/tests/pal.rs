use grownet_core::pal::{parallel_for, plan_tiles, tile_size, worker_count, ParallelOptions};
use grownet_core::policy::{ProbabilityMode, ProximityConfig};

#[test]
fn parallel_for_visits_indices_in_order() {
    let mut seen = Vec::new();
    parallel_for(3, 8, &ParallelOptions::default(), |index| seen.push(index));
    assert_eq!(seen, vec![3, 4, 5, 6, 7]);
}

#[test]
fn parallel_for_empty_range() {
    let mut calls = 0;
    let opts = ParallelOptions { max_workers: Some(4), tile_size: Some(2) };
    parallel_for(5, 5, &opts, |_| calls += 1);
    parallel_for(9, 2, &opts, |_| calls += 1);
    assert_eq!(calls, 0);
}

#[test]
fn parallel_options_default_is_unset() {
    let opts = ParallelOptions::default();
    assert_eq!(opts.max_workers, None);
    assert_eq!(opts.tile_size, None);
}

#[test]
fn proximity_config_holds_its_options() {
    let cfg = ProximityConfig {
        radius: 2_500_000_000,
        budget_per_tick: 16,
        per_source_cooldown: 10,
        probability_mode: ProbabilityMode::Logistic,
    };
    assert_eq!(cfg.probability_mode, ProbabilityMode::Logistic);
    assert_ne!(cfg.probability_mode, ProbabilityMode::Step);
    assert_eq!(cfg.radius, 2_500_000_000);
}

#[test]
fn plan_tiles_cuts_range_without_gap() {
    let opts = ParallelOptions { max_workers: Some(4), tile_size: Some(4) };
    assert_eq!(plan_tiles(3, 13, &opts), vec![(3, 7), (7, 11), (11, 13)]);
    assert_eq!(plan_tiles(0, 8, &opts), vec![(0, 4), (4, 8)]);
    assert_eq!(plan_tiles(5, 6, &opts), vec![(5, 6)]);
}

#[test]
fn plan_tiles_of_empty_range_is_empty() {
    let opts = ParallelOptions::default();
    assert!(plan_tiles(5, 5, &opts).is_empty());
    assert!(plan_tiles(9, 2, &opts).is_empty());
}

#[test]
fn plan_tiles_defaults_and_limits() {
    let unset = ParallelOptions::default();
    assert_eq!(plan_tiles(0, 130, &unset), vec![(0, 64), (64, 128), (128, 130)]);
    let zero = ParallelOptions { max_workers: None, tile_size: Some(0) };
    assert_eq!(plan_tiles(7, 10, &zero), vec![(7, 8), (8, 9), (9, 10)]);
    let huge = ParallelOptions { max_workers: None, tile_size: Some(usize::MAX) };
    assert_eq!(plan_tiles(1, usize::MAX, &huge), vec![(1, usize::MAX)]);
    assert_eq!(plan_tiles(usize::MAX - 3, usize::MAX, &unset), vec![(usize::MAX - 3, usize::MAX)]);
}

#[test]
fn tile_size_and_worker_count_defaults() {
    let unset = ParallelOptions::default();
    assert_eq!(tile_size(&unset), 64);
    assert_eq!(worker_count(&unset), 1);
    let zero = ParallelOptions { max_workers: Some(0), tile_size: Some(0) };
    assert_eq!(tile_size(&zero), 1);
    assert_eq!(worker_count(&zero), 1);
    let set = ParallelOptions { max_workers: Some(8), tile_size: Some(16) };
    assert_eq!(tile_size(&set), 16);
    assert_eq!(worker_count(&set), 8);
}
