use diskscope::domain::dupes::{DuplicateGroup, DuplicateReport};


#[test]
fn should_compute_recoverable_bytes_for_two_file_group() {
    let group = DuplicateGroup {
        hash: "abc123".into(),
        size: 1024,
        files: vec!["/a".into(), "/b".into()],
    };
    assert_eq!(group.recoverable_bytes(), 1024);
}

#[test]
fn should_compute_recoverable_bytes_for_three_file_group() {
    let group = DuplicateGroup {
        hash: "abc123".into(),
        size: 500,
        files: vec!["/a".into(), "/b".into(), "/c".into()],
    };
    assert_eq!(group.recoverable_bytes(), 1000);
}

#[test]
fn should_aggregate_totals_in_report() {
    let report = DuplicateReport {
        groups: vec![
            DuplicateGroup {
                hash: "aaa".into(),
                size: 100,
                files: vec!["/a".into(), "/b".into()],
            },
            DuplicateGroup {
                hash: "bbb".into(),
                size: 200,
                files: vec!["/c".into(), "/d".into(), "/e".into()],
            },
        ],
        total_recoverable: 500,
        total_duplicate_files: 3,
    };
    assert_eq!(report.total_recoverable, 500);
    assert_eq!(report.total_duplicate_files, 3);
}

