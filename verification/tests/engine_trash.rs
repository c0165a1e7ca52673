use diskscope::domain::DomainError;
use diskscope::engine::trash::{check_trash_path, pick_trashed, TrashedItem, UndoStack};

#[test]
fn undo_takes_the_latest_move_first() {
    let mut s: UndoStack<&str> = UndoStack::new();
    assert_eq!(s.len(), 0);
    s.push("/a");
    s.push("/b");
    assert_eq!(s.len(), 2);
    assert_eq!(s.take_last().unwrap(), "/b");
    assert_eq!(s.pop(), Some("/a"));
    assert_eq!(s.pop(), None);
    match s.take_last() {
        Err(DomainError::InvalidPath(m)) => assert_eq!(m, "nothing to undo"),
        other => panic!("unexpected {other:?}"),
    }
}

fn item(id: &str, path: &str) -> TrashedItem {
    TrashedItem { id: id.to_string(), original_path: path.to_string() }
}

#[test]
fn picks_the_new_entry_of_the_moved_path() {
    let after = vec![item("1", "/x"), item("2", "/y"), item("3", "/x")];
    assert_eq!(pick_trashed(&after, &Some(vec!["1".to_string()]), "/x"), Some(2));
    assert_eq!(pick_trashed(&after, &None, "/x"), Some(0));
    assert_eq!(pick_trashed(&after, &Some(vec!["1".to_string(), "3".to_string()]), "/x"), None);
    assert_eq!(pick_trashed(&after, &None, "/z"), None);
}

#[test]
fn empty_paths_are_refused() {
    match check_trash_path("") {
        Err(DomainError::InvalidPath(m)) => assert_eq!(m, "path must not be empty"),
        other => panic!("unexpected {other:?}"),
    }
    assert!(check_trash_path("/a").is_ok());
}

#[test]
fn trash_entry_is_matched_as_a_path() {
    let after = vec![TrashedItem { id: "7".into(), original_path: "/tmp/x".into() }];
    assert_eq!(pick_trashed(&after, &None, "/tmp/x/"), Some(0));
    assert_eq!(pick_trashed(&after, &None, "/tmp//x"), Some(0));
    assert_eq!(pick_trashed(&after, &None, "/tmp/./x"), Some(0));
    assert_eq!(pick_trashed(&after, &None, "/tmp/y"), None);
}
