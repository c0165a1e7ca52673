use diskscope::engine::domain::filenode::glob_matches;


#[test]
fn test_glob_basic() {
    assert!(glob_matches("*.rs", "main.rs"));
    assert!(!glob_matches("*.rs", "main.txt"));
}

#[test]
fn test_glob_question_mark() {
    assert!(glob_matches("?.txt", "a.txt"));
    assert!(!glob_matches("?.txt", "ab.txt"));
}

#[test]
fn test_glob_star_matches_empty() {
    assert!(glob_matches("*", "anything"));
    assert!(glob_matches("*", ""));
}

