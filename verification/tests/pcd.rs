use medusa_threed::pcd::{
    bytes_to_i32_be, decode_binary, is_binary_pcd, line_color, point_colors, split_point_lines,
};

fn binary_file(count: i32, points: &[f32]) -> Vec<u8> {
    let mut data = Vec::new();
    data.extend_from_slice(&1234i32.to_be_bytes());
    data.extend_from_slice(&count.to_be_bytes());
    for v in [0.0f32, 0.0, 0.0, 1.0, 0.0, 0.0, 0.0] {
        data.extend_from_slice(&v.to_be_bytes());
    }
    for v in points {
        data.extend_from_slice(&v.to_be_bytes());
    }
    data
}

#[test]
fn big_endian_integers() {
    assert_eq!(bytes_to_i32_be(&1234i32.to_be_bytes()), 1234);
    assert_eq!(bytes_to_i32_be(&(-2i32).to_be_bytes()), -2);
    assert_eq!(bytes_to_i32_be(&i32::MIN.to_be_bytes()), i32::MIN);
    assert_eq!(bytes_to_i32_be(&[0, 0, 4, 210, 9, 9]), 1234);
}

#[test]
fn binary_detection_needs_magic_and_header() {
    assert!(is_binary_pcd(&binary_file(0, &[])));
    assert!(!is_binary_pcd(&binary_file(0, &[])[..35]));
    let mut other = binary_file(0, &[]);
    other[3] = 0;
    assert!(!is_binary_pcd(&other));
}

#[test]
fn binary_points_decoded_with_grey() {
    let data = binary_file(1, &[1.0, 2.0, 3.0]);
    let cloud = decode_binary(&data);
    assert!(cloud.is_binary);
    let pos: Vec<f32> = cloud.position_bits.iter().map(|b| f32::from_bits(*b)).collect();
    assert_eq!(pos, vec![1.0, 2.0, 3.0]);
    assert_eq!(cloud.colors, vec![222, 222, 222]);
}

#[test]
fn binary_count_cut_short_by_data() {
    let data = binary_file(5, &[1.0, 2.0, 3.0, 4.0, 5.0, 6.0, 7.0]);
    let cloud = decode_binary(&data);
    assert_eq!(cloud.position_bits.len(), 6);
    let fewer = decode_binary(&binary_file(1, &[1.0, 2.0, 3.0, 4.0, 5.0, 6.0]));
    assert_eq!(fewer.position_bits.len(), 3);
}

fn lines(text: &str) -> Vec<Vec<String>> {
    let chars: Vec<char> = text.chars().collect();
    split_point_lines(&chars)
        .into_iter()
        .map(|l| l.into_iter().map(|f| f.into_iter().collect()).collect())
        .collect()
}

#[test]
fn ascii_lines_split_into_fields() {
    let got = lines("1.0 2.0 3.0 1 100 150 200\n4.0 5.0 6.0 1 50 60 70\n\n");
    assert_eq!(got.len(), 2);
    assert_eq!(got[0], vec!["1.0", "2.0", "3.0", "1", "100", "150", "200"]);
    assert_eq!(got[1][2], "6.0");
}

#[test]
fn ascii_short_lines_skipped_and_whitespace_collapsed() {
    let got = lines("  a b\n\t1.5   2.5\u{3000}3.5 \r\nx y z");
    assert_eq!(got, vec![vec!["1.5", "2.5", "3.5"], vec!["x", "y", "z"]]);
    assert!(lines("").is_empty());
}

#[test]
fn ascii_matches_std_splitting() {
    let text = "1 2 3\r\n 4\u{A0}5 6 7 8 9\n\n10 11\n12 13 14";
    let expected: Vec<Vec<String>> = text
        .lines()
        .map(|l| l.split_whitespace().map(|s| s.to_string()).collect::<Vec<_>>())
        .filter(|f: &Vec<String>| f.len() >= 3)
        .collect();
    assert_eq!(lines(text), expected);
}

fn fields(s: &[&str]) -> Vec<Vec<char>> {
    s.iter().map(|f| f.chars().collect()).collect()
}

#[test]
fn colors_from_fields_or_grey() {
    assert_eq!(line_color(&fields(&["1", "2", "3", "1", "100", "150", "200"])), (100, 150, 200));
    assert_eq!(line_color(&fields(&["1", "2", "3"])), (222, 222, 222));
    assert_eq!(line_color(&fields(&["1", "2", "3", "1", "x", "-5", "+7"])), (222, -5, 7));
    assert_eq!(
        line_color(&fields(&["1", "2", "3", "1", "2147483648", "-2147483648", "-"])),
        (222, i32::MIN, 222)
    );
}

#[test]
fn point_colors_own_or_fallback() {
    let colors = vec![1, 2, 3, 4, 5, 6];
    assert_eq!(point_colors(&colors, 6, &vec![1, 0], 222), vec![4, 5, 6, 1, 2, 3]);
    assert_eq!(point_colors(&vec![9, 9, 9], 6, &vec![1], 222), vec![222, 222, 222]);
    assert_eq!(point_colors(&vec![], 6, &vec![0, 1], 0), vec![0; 6]);
    assert!(point_colors(&colors, 6, &vec![], 0).is_empty());
}
