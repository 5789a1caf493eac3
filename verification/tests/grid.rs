use medusa_threed::statistics::{distance_pairs, sample_step};
use medusa_threed::grid::{
    assign_vertex_indices, cell_index, effective_max_gap, grid_dims_ok, grid_faces,
};

#[test]
fn grid_dimension_limits() {
    assert!(!grid_dims_ok(1, 5));
    assert!(!grid_dims_ok(5, 1));
    assert!(grid_dims_ok(2, 2));
    assert!(grid_dims_ok(10_000, 1_000));
    assert!(!grid_dims_ok(10_001, 1_000));
    assert!(!grid_dims_ok(10_000_001, 10_000_001));
}

#[test]
fn cells_past_the_edge_are_clamped() {
    assert_eq!(cell_index(0, 0, 3, 2), 0);
    assert_eq!(cell_index(2, 1, 3, 2), 5);
    assert_eq!(cell_index(7, 9, 3, 2), 5);
}

#[test]
fn occupied_cells_are_numbered_in_order() {
    let (index, count) = assign_vertex_indices(&vec![2, 0, 1, 0, 5]);
    assert_eq!(index, vec![0, -1, 1, -1, 2]);
    assert_eq!(count, 3);
}

#[test]
fn full_quad_gives_two_triangles() {
    let faces = grid_faces(&vec![0, 1, 2, 3], 2, 2, &vec![true], 2);
    assert_eq!(faces, vec![0, 2, 1, 1, 2, 3]);
    let steep = grid_faces(&vec![0, 1, 2, 3], 2, 2, &vec![false], 2);
    assert!(steep.is_empty());
}

#[test]
fn three_by_three_grid_gives_eight_triangles() {
    let (index, count) = assign_vertex_indices(&vec![1; 9]);
    assert_eq!(count, 9);
    let faces = grid_faces(&index, 3, 3, &vec![true; 4], 2);
    assert_eq!(faces.len() / 3, 8);
    assert!(faces.iter().all(|&f| f >= 0 && (f as usize) < count));
}

#[test]
fn partial_quads_bridge_only_with_gap() {
    let index = vec![0, 1, 2, -1];
    assert_eq!(grid_faces(&index, 2, 2, &vec![true], 2), vec![0, 2, 1]);
    assert!(grid_faces(&index, 2, 2, &vec![true], 1).is_empty());
    assert!(grid_faces(&vec![0, -1, -1, 1], 2, 2, &vec![true], 3).is_empty());
    assert_eq!(grid_faces(&vec![-1, 0, 1, 2], 2, 2, &vec![true], 2), vec![0, 1, 2]);
}

#[test]
fn max_gap_defaults() {
    assert_eq!(effective_max_gap(0), 2);
    assert_eq!(effective_max_gap(-3), 2);
    assert_eq!(effective_max_gap(4), 4);
}

#[test]
fn display_size_sampling_plan() {
    assert!(distance_pairs(0).is_empty());
    assert!(distance_pairs(1).is_empty());
    assert_eq!(distance_pairs(2), vec![(0, 1)]);
    assert_eq!(distance_pairs(3), vec![(0, 1), (0, 2), (1, 2)]);
    let p = distance_pairs(10);
    assert_eq!(&p[..6], &[(0, 1), (0, 2), (0, 3), (0, 4), (0, 5), (0, 6)]);
    assert_eq!(p.len(), 6 * 4 + 5 + 4 + 3 + 2 + 1);
    assert_eq!(sample_step(1000), 1);
    assert_eq!(sample_step(2500), 2);
    let big = distance_pairs(2500);
    assert_eq!(big[0], (0, 1));
    assert_eq!(big[6], (2, 3));
    assert_eq!(big.len(), 1247 * 6 + 5 + 3 + 1);
    let mut expected = Vec::new();
    for si in (0..2500usize).step_by(2) {
        for sj in (si + 1)..(si + 7).min(2500) {
            expected.push((si, sj));
        }
    }
    assert_eq!(big, expected);
}
