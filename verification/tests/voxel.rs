use medusa_threed::voxel::{effective_max_grid_dim, first_in_each_voxel};

#[test]
fn one_point_per_voxel_first_wins() {
    let keys = vec![(0, 0, 0), (1, 0, 0), (0, 0, 0), (1, 0, 0), (0, 1, 0)];
    assert_eq!(first_in_each_voxel(&keys), vec![0, 1, 4]);
}

#[test]
fn keys_differing_in_any_axis_are_distinct() {
    let keys = vec![
        (0, 0, 1),
        (0, 1, 0),
        (1, 0, 0),
        (u32::MAX, 0, 0),
        (0, u32::MAX, 0),
        (0, 0, u32::MAX),
    ];
    assert_eq!(first_in_each_voxel(&keys).len(), 6);
}

#[test]
fn empty_cloud_has_no_voxels() {
    assert!(first_in_each_voxel(&vec![]).is_empty());
}

#[test]
fn grid_dim_defaults_to_500() {
    assert_eq!(effective_max_grid_dim(0), 500);
    assert_eq!(effective_max_grid_dim(-1), 500);
    assert_eq!(effective_max_grid_dim(10), 10);
}
