use diskscope::domain::{DomainError, FileNode, FileType, ScanResult};
use diskscope::gui::lifecycle::{ScanId, ScanLifecycle, ScanPhase};

fn sample_result() -> ScanResult {
    let root = FileNode { path: "/test".into(), size: 100, modified: 0, file_type: FileType::Directory, children: vec![] };
    ScanResult::from_tree(root, 10)
}

#[test]
fn should_preserve_error_when_scan_fails() {
    let mut lc = ScanLifecycle::new();
    let (id, path) = lc.start("  /tmp  ").unwrap();
    assert_eq!(path, "/tmp");
    assert_eq!(lc.collect(true, Some(Err("simulated scan failure".to_string()))), Some(id));
    assert!(lc.result().is_none());
    assert!(lc.has_result());
    match &lc.phase {
        ScanPhase::Done { error: Some(e), .. } => assert_eq!(e, "simulated scan failure"),
        other => panic!("unexpected {other:?}"),
    }
}

#[test]
fn should_store_result_when_scan_succeeds() {
    let mut lc = ScanLifecycle::new();
    let (id, _) = lc.start("/tmp").unwrap();
    assert_eq!(id, ScanId(1));
    assert_eq!(lc.collect(true, Some(Ok(sample_result()))), Some(id));
    assert_eq!(lc.result(), Some(&sample_result()));
}

#[test]
fn should_return_none_when_nothing_pending() {
    let mut lc = ScanLifecycle::new();
    assert!(lc.result().is_none());
    assert_eq!(lc.collect(true, None), None);
}

#[test]
fn start_refuses_blank_paths_and_a_second_scan() {
    let mut lc = ScanLifecycle::new();
    match lc.start("   ") {
        Err(DomainError::InvalidPath(m)) => assert_eq!(m, "scan path must not be empty"),
        other => panic!("unexpected {other:?}"),
    }
    let (id, _) = lc.start("/a").unwrap();
    assert!(lc.is_running());
    match lc.start("/b") {
        Err(DomainError::InvalidPath(m)) => assert_eq!(m, "a scan is already running (id 1)"),
        other => panic!("unexpected {other:?}"),
    }
    assert_eq!(lc.collect(false, None), None);
    assert!(lc.is_running());
    assert_eq!(lc.collect(true, None), Some(id));
    match &lc.phase {
        ScanPhase::Done { error: Some(e), result: None, .. } => assert_eq!(e, "scan produced no result"),
        other => panic!("unexpected {other:?}"),
    }
}

#[test]
fn cancel_stops_only_the_matching_running_scan() {
    let mut lc = ScanLifecycle::new();
    let (id, _) = lc.start("/a").unwrap();
    assert_eq!(lc.cancel(ScanId(99)), ScanId(99));
    assert!(lc.is_running());
    assert_eq!(lc.cancel(id), id);
    assert!(matches!(lc.phase, ScanPhase::Idle));
    let (id2, _) = lc.start("/a").unwrap();
    assert_eq!(id2, ScanId(2));
    lc.collect(true, Some(Ok(sample_result())));
    assert_eq!(lc.cancel(ScanId(7)), id2);
    assert!(lc.has_result());
    assert_eq!(id2.to_string(), "2");
}

#[test]
fn start_drops_unicode_white_space_around_the_path() {
    let mut lc = ScanLifecycle::new();
    let (_, path) = lc.start("\u{3000}\t/tmp/a b\u{85}\u{a0}").unwrap();
    assert_eq!(path, "/tmp/a b");
    let mut lc = ScanLifecycle::new();
    assert!(lc.start("\u{2028} \u{205f}").is_err());
}
