use grownet_core::tract::Tract;
use grownet_core::window::{
    axis_span, compute_window_mapping, output_dim_same, output_dim_valid, Padding, WindowMapping,
};

fn dests(map: &WindowMapping, source: usize) -> Vec<usize> {
    match map.dests_of(source) {
        Some(list) => list.clone(),
        None => Vec::new(),
    }
}

fn assert_symmetric(map: &WindowMapping, sources: usize) {
    for (dest, list) in map.dest_to_sources.iter().enumerate() {
        for (at, source) in list.iter().enumerate() {
            assert!(dests(map, *source).contains(&dest));
            assert!(!list[..at].contains(source));
        }
    }
    for source in 0..sources {
        for dest in dests(map, source) {
            assert!(map.dest_to_sources[dest].contains(&source));
        }
    }
}

#[test]
fn window_mapping_same_center_rule() {
    let map = compute_window_mapping(5, 5, 3, 3, 1, 1, Padding::Same);
    // out dims equal to input for SAME with stride 1
    assert_eq!(map.out_height, 5);
    assert_eq!(map.out_width, 5);
    // unique sources should be <= 25
    assert!(map.unique_source_count <= 25);
}

#[test]
fn window_mapping_same_exact_tables() {
    let map = compute_window_mapping(5, 5, 3, 3, 1, 1, Padding::Same);
    assert_eq!(map.dest_to_sources.len(), 25);
    assert_eq!(map.unique_source_count, 25);
    assert_eq!(map.dest_to_sources[0], vec![0, 1, 5, 6]);
    assert_eq!(map.dest_to_sources[2], vec![1, 2, 3, 6, 7, 8]);
    assert_eq!(map.dest_to_sources[12], vec![6, 7, 8, 11, 12, 13, 16, 17, 18]);
    assert_eq!(map.dest_to_sources[24], vec![18, 19, 23, 24]);
    assert_eq!(dests(&map, 0), vec![0, 1, 5, 6]);
    assert_eq!(dests(&map, 12), vec![6, 7, 8, 11, 12, 13, 16, 17, 18]);
    assert!(map.dests_of(25).is_none());
    assert_symmetric(&map, 30);
}

#[test]
fn window_mapping_valid_exact_tables() {
    let map = compute_window_mapping(5, 5, 3, 3, 1, 1, Padding::Valid);
    assert_eq!(map.out_height, 3);
    assert_eq!(map.out_width, 3);
    assert_eq!(map.dest_to_sources.len(), 9);
    assert_eq!(map.dest_to_sources[0], vec![0, 1, 2, 5, 6, 7, 10, 11, 12]);
    assert_eq!(map.dest_to_sources[8], vec![12, 13, 14, 17, 18, 19, 22, 23, 24]);
    assert_eq!(map.unique_source_count, 25);
    assert_eq!(dests(&map, 12), vec![0, 1, 2, 3, 4, 5, 6, 7, 8]);
    assert_eq!(dests(&map, 0), vec![0]);
    assert_symmetric(&map, 25);
}

#[test]
fn window_mapping_valid_with_stride_skips_sources() {
    let map = compute_window_mapping(5, 5, 2, 2, 3, 3, Padding::Valid);
    assert_eq!(map.out_height, 2);
    assert_eq!(map.out_width, 2);
    // half kernel is 1: each window is centered one past its corner
    assert_eq!(map.dest_to_sources[0], vec![0, 1, 2, 5, 6, 7, 10, 11, 12]);
    assert_eq!(map.dest_to_sources[3], vec![18, 19, 23, 24]);
    assert_symmetric(&map, 25);
}

#[test]
fn window_mapping_same_with_stride() {
    let map = compute_window_mapping(8, 8, 5, 5, 2, 2, Padding::Same);
    assert_eq!(map.out_height, 4);
    assert_eq!(map.out_width, 4);
    assert_eq!(map.dest_to_sources[0], vec![0, 1, 2, 8, 9, 10, 16, 17, 18]);
    assert_eq!(map.dest_to_sources[5].len(), 25);
    assert_eq!(map.unique_source_count, 64);
    assert_symmetric(&map, 64);
}

#[test]
fn window_mapping_kernel_of_one_is_identity() {
    let map = compute_window_mapping(2, 3, 1, 1, 1, 1, Padding::Same);
    assert_eq!(map.out_height, 2);
    assert_eq!(map.out_width, 3);
    for cell in 0..6 {
        assert_eq!(map.dest_to_sources[cell], vec![cell]);
        assert_eq!(dests(&map, cell), vec![cell]);
    }
    assert_eq!(map.unique_source_count, 6);
}

#[test]
fn window_mapping_empty_when_kernel_exceeds_source() {
    let map = compute_window_mapping(2, 2, 3, 3, 1, 1, Padding::Valid);
    assert_eq!(map.out_height, 0);
    assert_eq!(map.out_width, 0);
    assert!(map.dest_to_sources.is_empty());
    assert_eq!(map.unique_source_count, 0);
    assert!(map.dests_of(0).is_none());
}

#[test]
fn window_mapping_empty_source() {
    let map = compute_window_mapping(0, 4, 3, 3, 1, 1, Padding::Same);
    assert_eq!(map.out_height, 0);
    assert_eq!(map.out_width, 4);
    assert!(map.dest_to_sources.is_empty());
    assert_eq!(map.unique_source_count, 0);
}

#[test]
fn output_dims_exact_values() {
    assert_eq!(output_dim_same(5, 1), 5);
    assert_eq!(output_dim_same(5, 2), 3);
    assert_eq!(output_dim_same(4, 2), 2);
    assert_eq!(output_dim_same(0, 3), 0);
    assert_eq!(output_dim_same(1, 100), 1);
    assert_eq!(output_dim_same(usize::MAX, 2), usize::MAX / 2 + 1);
    assert_eq!(output_dim_valid(5, 3, 1), 3);
    assert_eq!(output_dim_valid(5, 3, 2), 2);
    assert_eq!(output_dim_valid(2, 3, 1), 0);
    assert_eq!(output_dim_valid(2, 3, 0), 0);
    assert_eq!(output_dim_valid(3, 3, 7), 1);
}

#[test]
fn axis_span_exact_values() {
    assert_eq!(axis_span(5, 3, 1, Padding::Same, 0), (0, 2));
    assert_eq!(axis_span(5, 3, 1, Padding::Same, 2), (1, 4));
    assert_eq!(axis_span(5, 3, 1, Padding::Same, 4), (3, 5));
    assert_eq!(axis_span(5, 3, 1, Padding::Valid, 0), (0, 3));
    assert_eq!(axis_span(5, 3, 1, Padding::Valid, 2), (2, 5));
    assert_eq!(axis_span(5, 100, 1, Padding::Same, 3), (0, 5));
    assert_eq!(axis_span(5, 0, 1, Padding::Same, 3), (3, 4));
}

#[test]
fn tract_new_computes_mapping() {
    let tract = Tract::new(0, 1, 4, 4, 3, 3, 1, 1, Padding::Same);
    assert_eq!(tract.source_layer_index, 0);
    assert_eq!(tract.dest_layer_index, 1);
    assert_eq!(tract.unique_source_count(), 16);
    assert_eq!(tract.mapping.out_height, 4);
    assert_eq!(tract.mapping.out_width, 4);
    assert_eq!(tract.mapping.dest_to_sources[5], vec![0, 1, 2, 4, 5, 6, 8, 9, 10]);
    assert_eq!(tract.source_height, 4);
    assert_eq!(tract.kernel_width, 3);
    assert_eq!(tract.padding, Padding::Same);
}

#[test]
fn tract_attach_leaves_computed_mapping_alone() {
    let mut tract = Tract::new(0, 1, 4, 4, 3, 3, 1, 1, Padding::Same);
    let before: Vec<Vec<usize>> = tract.mapping.dest_to_sources.clone();
    tract.attach_source_neuron(5);
    tract.attach_source_neuron(16);
    tract.attach_source_neuron(1_000);
    assert_eq!(tract.mapping.dest_to_sources, before);
    assert_eq!(dests(&tract.mapping, 5), vec![0, 1, 2, 4, 5, 6, 8, 9, 10]);
    assert!(tract.mapping.dests_of(16).is_none());
    assert_eq!(tract.unique_source_count(), 16);
}
