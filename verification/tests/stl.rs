use medusa_threed::stl::{expected_size, write_binary, MeshData, StlError};

fn bits(v: &[f32]) -> Vec<u32> {
    v.iter().map(|x| x.to_bits()).collect()
}

fn one_triangle() -> MeshData {
    MeshData {
        vertices: bits(&[0.0, 0.0, 0.0, 1.0, 0.0, 0.0, 0.0, 1.0, 0.0]),
        faces: vec![0, 1, 2],
        tex_coords: vec![],
    }
}

fn up_normals(count: usize) -> Vec<u32> {
    let mut n = Vec::new();
    for _ in 0..count {
        n.extend(bits(&[0.0, 0.0, 1.0]));
    }
    n
}

#[test]
fn size_matches_formula() {
    let mut buf = Vec::new();
    let n = write_binary(&one_triangle(), &up_normals(1), &mut buf).unwrap();
    assert_eq!(buf.len() as u64, n);
    assert_eq!(n, expected_size(1));
}

#[test]
fn header_zero_filled_and_triangle_count_encoded() {
    let mut buf = Vec::new();
    write_binary(&one_triangle(), &up_normals(1), &mut buf).unwrap();
    assert!(buf[..80].iter().all(|b| *b == 0));
    assert_eq!(&buf[80..84], &1u32.to_le_bytes());
}

#[test]
fn normal_points_positive_z_for_ccw_triangle() {
    let mut buf = Vec::new();
    write_binary(&one_triangle(), &up_normals(1), &mut buf).unwrap();
    let nz = f32::from_le_bytes(buf[92..96].try_into().unwrap());
    assert!((nz - 1.0).abs() < 1e-6);
}

#[test]
fn empty_mesh_writes_only_header_and_zero_count() {
    let empty = MeshData {
        vertices: vec![],
        faces: vec![],
        tex_coords: vec![],
    };
    let mut buf = Vec::new();
    let n = write_binary(&empty, &vec![], &mut buf).unwrap();
    assert_eq!(n, 84);
    assert_eq!(buf.len(), 84);
}

#[test]
fn invalid_face_index_surfaces_error() {
    let bad = MeshData {
        vertices: bits(&[0.0, 0.0, 0.0, 1.0, 0.0, 0.0, 0.0, 1.0, 0.0]),
        faces: vec![0, 1, 5],
        tex_coords: vec![],
    };
    let mut buf = Vec::new();
    assert!(matches!(
        write_binary(&bad, &up_normals(1), &mut buf),
        Err(StlError::InvalidFaceIndex)
    ));
}

#[test]
fn two_triangle_mesh_encoded_correctly() {
    let mesh = MeshData {
        vertices: bits(&[0.0, 0.0, 0.0, 1.0, 0.0, 0.0, 1.0, 1.0, 0.0, 0.0, 1.0, 0.0]),
        faces: vec![0, 1, 2, 0, 2, 3],
        tex_coords: vec![],
    };
    let mut buf = Vec::new();
    let n = write_binary(&mesh, &up_normals(2), &mut buf).unwrap();
    assert_eq!(n, expected_size(2));
    assert_eq!(&buf[80..84], &2u32.to_le_bytes());
}

#[test]
fn records_hold_normal_vertices_and_zero_attribute() {
    let mesh = one_triangle();
    let normal = bits(&[0.25, -0.5, 1.0]);
    let mut buf = Vec::new();
    write_binary(&mesh, &normal, &mut buf).unwrap();
    let word = |at: usize| f32::from_le_bytes(buf[at..at + 4].try_into().unwrap());
    assert_eq!([word(84), word(88), word(92)], [0.25, -0.5, 1.0]);
    assert_eq!([word(96), word(100), word(104)], [0.0, 0.0, 0.0]);
    assert_eq!([word(108), word(112), word(116)], [1.0, 0.0, 0.0]);
    assert_eq!([word(120), word(124), word(128)], [0.0, 1.0, 0.0]);
    assert_eq!(&buf[132..134], &[0, 0]);
}

#[test]
fn negative_index_and_trailing_entries() {
    let mut mesh = one_triangle();
    mesh.faces = vec![0, -1, 2];
    let mut buf = Vec::new();
    assert!(write_binary(&mesh, &up_normals(1), &mut buf).is_err());
    assert_eq!(buf.len(), 84);

    let mut mesh = one_triangle();
    mesh.faces = vec![0, 1, 2, 1];
    let mut buf = vec![7u8];
    let n = write_binary(&mesh, &up_normals(1), &mut buf).unwrap();
    assert_eq!(n, 134);
    assert_eq!(buf.len(), 135);
    assert_eq!(buf[0], 7);
}
