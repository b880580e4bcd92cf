use grownet_core::spatial_metrics::{compute_spatial_metrics_from_frame, SpatialMetrics};

#[test]
fn spatial_metrics_of_blank_frame_are_zero() {
    let frame = vec![0u64; 12];
    let metrics = compute_spatial_metrics_from_frame(&frame, 3, 4);
    assert_eq!(metrics, SpatialMetrics::default());
    assert_eq!(metrics.active_count, 0);
    assert_eq!(metrics.min_row, 0);
    assert_eq!(metrics.max_col, 0);
    assert_eq!(metrics.row_sum, 0);
}

#[test]
fn spatial_metrics_single_cell() {
    let mut frame = vec![0u64; 16];
    frame[5] = 1_000_000_000;
    let metrics = compute_spatial_metrics_from_frame(&frame, 4, 4);
    assert_eq!(metrics.active_count, 1);
    assert_eq!((metrics.min_row, metrics.max_row), (1, 1));
    assert_eq!((metrics.min_col, metrics.max_col), (1, 1));
    assert_eq!(metrics.row_sum, 1);
    assert_eq!(metrics.col_sum, 1);
}

#[test]
fn spatial_metrics_counts_cells_not_values() {
    // 3 rows by 4 columns; active cells (0,3), (2,0), (2,1)
    let mut frame = vec![0u64; 12];
    frame[3] = 7;
    frame[8] = 1;
    frame[9] = u64::MAX;
    let metrics = compute_spatial_metrics_from_frame(&frame, 3, 4);
    assert_eq!(metrics.active_count, 3);
    assert_eq!((metrics.min_row, metrics.max_row), (0, 2));
    assert_eq!((metrics.min_col, metrics.max_col), (0, 3));
    assert_eq!(metrics.row_sum, 4);
    assert_eq!(metrics.col_sum, 4);
    let centroid_row = metrics.row_sum as f64 / metrics.active_count as f64;
    let centroid_col = metrics.col_sum as f64 / metrics.active_count as f64;
    assert!((centroid_row - 4.0 / 3.0).abs() < 1e-12);
    assert!((centroid_col - 4.0 / 3.0).abs() < 1e-12);
}

#[test]
fn spatial_metrics_ignore_cells_past_the_grid() {
    let frame = vec![0u64, 0, 0, 0, 9, 9];
    let metrics = compute_spatial_metrics_from_frame(&frame, 2, 2);
    assert_eq!(metrics.active_count, 0);
    let empty = compute_spatial_metrics_from_frame(&frame, 0, 5);
    assert_eq!(empty, SpatialMetrics::default());
}

#[test]
fn spatial_metrics_full_frame() {
    let frame = vec![1u64; 16];
    let metrics = compute_spatial_metrics_from_frame(&frame, 4, 4);
    assert_eq!(metrics.active_count, 16);
    assert_eq!((metrics.min_row, metrics.max_row), (0, 3));
    assert_eq!((metrics.min_col, metrics.max_col), (0, 3));
    assert_eq!(metrics.row_sum, 24);
    assert_eq!(metrics.col_sum, 24);
}
