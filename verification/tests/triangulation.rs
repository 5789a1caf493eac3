use medusa_threed::triangulation::compact_vertices;

#[test]
fn vertices_numbered_by_first_appearance() {
    let (faces, ids) = compact_vertices(&vec![4, 2, 9, 2, 9, 7]);
    assert_eq!(ids, vec![4, 2, 9, 7]);
    assert_eq!(faces, vec![0, 1, 2, 1, 2, 3]);
}

#[test]
fn empty_triangulation() {
    let (faces, ids) = compact_vertices(&vec![]);
    assert!(faces.is_empty());
    assert!(ids.is_empty());
}

#[test]
fn faces_map_back_to_ids() {
    let corners = vec![1, 2, 3, 3, 2, 4, 4, 1, 3];
    let (faces, ids) = compact_vertices(&corners);
    assert_eq!(ids.len(), 4);
    for (k, &f) in faces.iter().enumerate() {
        assert_eq!(ids[f as usize], corners[k]);
    }
}
