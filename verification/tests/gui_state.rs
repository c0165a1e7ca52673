use diskscope::gui::state::{AppState, TrashEntry};

#[test]
fn test_push_and_pop_trash() {
    let mut state = AppState::new();
    state.push_trash(TrashEntry { original_path: "/tmp/test.txt".into(), trash_id: "id-1".into() });
    state.push_trash(TrashEntry { original_path: "/tmp/test2.txt".into(), trash_id: "id-2".into() });
    assert_eq!(state.trash_count(), 2);
    let entry = state.pop_trash().unwrap();
    assert_eq!(entry.trash_id, "id-2");
    let entry = state.pop_trash().unwrap();
    assert_eq!(entry.trash_id, "id-1");
    assert!(state.pop_trash().is_none());
}

#[test]
fn test_scanning_flag() {
    let mut state = AppState::new();
    assert!(!state.scanning);
    state.scanning = true;
    assert!(state.scanning);
}

#[test]
fn app_state_default_is_empty() {
    let state = AppState::default();
    assert!(state.last_scan.is_none());
    assert_eq!(state.trash_count(), 0);
    assert!(!state.scanning);
}

#[test]
fn pop_trash_keeps_original_path() {
    let mut state = AppState::new();
    state.push_trash(TrashEntry { original_path: "/a/b".into(), trash_id: "x".into() });
    let e = state.pop_trash().unwrap();
    assert_eq!(e.original_path, "/a/b");
    assert_eq!(state.trash_count(), 0);
}
