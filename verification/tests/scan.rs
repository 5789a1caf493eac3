use medusa_threed::profile::profile_point_plan;
use medusa_threed::scan::{is_slice_name, name_le_exec, select_slice_names, sort_by_name};
use medusa_threed::scan_service::{
    check_slice_metadata, check_slice_path, scan_step, IoFailure, ScanAction, ScanRun,
    SliceEvent, SliceImageError, DEFAULT_DECIMATION, FINDER_STRATEGY_BLACK_ON_WHITE,
};

fn strings(s: &[&str]) -> Vec<String> {
    s.iter().map(|x| x.to_string()).collect()
}

#[test]
fn slice_names_end_in_png() {
    assert!(is_slice_name("0.523598.png"));
    assert!(is_slice_name(".png"));
    assert!(!is_slice_name("readme.txt"));
    assert!(!is_slice_name("png"));
    assert!(!is_slice_name("a.PNG"));
}

#[test]
fn slices_selected_and_sorted() {
    let got = select_slice_names(strings(&["1.5708.png", "readme.txt", "0.0.png", "ignore"]));
    assert_eq!(got, strings(&["0.0.png", "1.5708.png"]));
}

#[test]
fn sort_matches_string_order() {
    let input = strings(&["b", "a", "ab", "", "é", "Z", "aa", "b"]);
    let mut expected = input.clone();
    expected.sort();
    assert_eq!(sort_by_name(input), expected);
    assert!(name_le_exec("a", "ab"));
    assert!(!name_le_exec("b", "ab"));
}

#[test]
fn slice_image_errors_are_stable() {
    assert_eq!(check_slice_path(""), Err(SliceImageError::EmptyPath));
    assert_eq!(SliceImageError::EmptyPath.as_str(), "slice_path is empty");
    assert_eq!(check_slice_path("/tmp/x.png"), Ok(()));
    assert_eq!(check_slice_metadata(Ok(false)), Err(SliceImageError::NotARegularFile));
    assert_eq!(SliceImageError::NotARegularFile.as_str(), "not a regular file");
    assert_eq!(check_slice_metadata(Err(IoFailure::NotFound)), Err(SliceImageError::NotFound));
    assert_eq!(SliceImageError::NotFound.as_str(), "file not found");
    assert_eq!(
        check_slice_metadata(Err(IoFailure::PermissionDenied)).unwrap_err().as_str(),
        "permission denied"
    );
    assert_eq!(check_slice_metadata(Err(IoFailure::Other)).unwrap_err().as_str(), "read failed");
    assert_eq!(check_slice_metadata(Ok(true)), Ok(()));
}

#[test]
fn legacy_defaults_match_three_d_memento() {
    assert_eq!(DEFAULT_DECIMATION, 50);
    assert_eq!(FINDER_STRATEGY_BLACK_ON_WHITE, 1);
}

#[test]
fn read_slice_bytes_empty_path() {
    let err = check_slice_path("").unwrap_err();
    assert_eq!(err.as_str(), "slice_path is empty");
}

#[test]
fn read_slice_bytes_not_found() {
    assert_eq!(check_slice_path("/tmp/__nonexistent_medusa_slice__.png"), Ok(()));
    let err = check_slice_metadata(Err(IoFailure::NotFound)).unwrap_err();
    assert_eq!(err.as_str(), "file not found");
    assert_eq!(SliceImageError::from_io(IoFailure::NotFound), err);
}

#[test]
fn read_slice_bytes_directory_is_not_a_regular_file() {
    assert_eq!(check_slice_path("/tmp"), Ok(()));
    let err = check_slice_metadata(Ok(false)).unwrap_err();
    assert_eq!(err.as_str(), "not a regular file");
}

#[test]
fn scan_progress_is_contiguous_and_errors_end_it() {
    let mut run = ScanRun { slices_total: 3, next: 0 };
    let mut seen = Vec::new();
    for success in [true, false, true] {
        let (next, action) = scan_step(&run, SliceEvent::Detected { success });
        match action {
            ScanAction::Progress { index, total, with_points } => {
                assert_eq!(total, 3);
                seen.push((index, with_points));
            }
            _ => panic!("expected progress"),
        }
        run = next;
        if run.next == 3 {
            break;
        }
    }
    assert_eq!(seen, vec![(0, true), (1, false), (2, true)]);
    let run = ScanRun { slices_total: 2, next: 1 };
    assert!(matches!(scan_step(&run, SliceEvent::DetectorFailed).1, ScanAction::FailDetection));
    assert!(matches!(scan_step(&run, SliceEvent::NoDetector).1, ScanAction::FailNoDetector));
    assert!(matches!(scan_step(&run, SliceEvent::ReceiverClosed).1, ScanAction::Stop));
}

#[test]
fn profile_rows_yield_left_then_right() {
    assert_eq!(profile_point_plan(&vec![true], &vec![true]), vec![(0, false), (0, true)]);
    assert_eq!(
        profile_point_plan(&vec![false, true], &vec![false, true]),
        vec![(1, false), (1, true)]
    );
    assert_eq!(profile_point_plan(&vec![false, true, true], &vec![true, false]), vec![(1, false)]);
    assert!(profile_point_plan(&vec![false; 3], &vec![false; 3]).is_empty());
    assert!(profile_point_plan(&vec![], &vec![]).is_empty());
}

#[test]
fn listing_does_not_depend_on_read_order() {
    let a = strings(&["2.0.png", "x.txt", "0.5.png", "10.png", "1.0.png"]);
    let b = strings(&["1.0.png", "10.png", "x.txt", "2.0.png", "0.5.png"]);
    assert_eq!(select_slice_names(a.clone()), select_slice_names(b.clone()));
    assert_eq!(sort_by_name(a), sort_by_name(b));
}
