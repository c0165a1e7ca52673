use diskscope::domain::junk::{detect_junk, JunkCategory};
use diskscope::domain::{FileNode, FileType};
use diskscope::engine::junk::{default_rules, find_junk};

#[test]
fn should_include_node_modules_and_target_in_default_rules() {
    assert!(default_rules().iter().any(|r| r.dir_name == "node_modules"));
    assert!(default_rules().iter().any(|r| r.dir_name == "target"));
}

#[test]
fn should_include_python_and_build_rules() {
    assert!(default_rules().iter().any(|r| r.dir_name == "__pycache__"));
    assert!(default_rules().iter().any(|r| r.dir_name == ".venv"));
    assert!(default_rules().iter().any(|r| r.dir_name == "dist"));
    assert!(default_rules().iter().any(|r| r.dir_name == "build"));
}

#[test]
fn default_rules_hold_fourteen_rules_in_order() {
    let rules = default_rules();
    assert_eq!(rules.len(), 14);
    assert_eq!(rules[0].name, "node_modules");
    assert_eq!(rules[0].category, JunkCategory::Regenerable);
    assert_eq!(rules[13].dir_name, ".mypy_cache");
    assert_eq!(rules[13].category, JunkCategory::Cache);
}

fn dir(path: &str, children: Vec<FileNode>) -> FileNode {
    FileNode {
        path: path.to_string(),
        size: children.iter().map(|c| c.size).sum(),
        modified: 0,
        file_type: FileType::Directory,
        children,
    }
}

fn leaf(path: &str, size: u64) -> FileNode {
    FileNode { path: path.to_string(), size, modified: 0, file_type: FileType::Other, children: Vec::new() }
}

#[test]
fn find_junk_reports_outermost_default_matches() {
    let root = dir(
        "/p",
        vec![
            dir("/p/node_modules", vec![dir("/p/node_modules/x/target", vec![leaf("/p/node_modules/x/target/a", 5)])]),
            dir("/p/src", vec![dir("/p/src/__pycache__", vec![leaf("/p/src/__pycache__/m.pyc", 7)])]),
            leaf("/p/target", 100),
        ],
    );
    let report = find_junk(&root);
    assert_eq!(report.items.len(), 2);
    assert_eq!(report.items[0].path, "/p/node_modules");
    assert_eq!(report.items[0].rule_name, "node_modules");
    assert_eq!(report.items[1].path, "/p/src/__pycache__");
    assert_eq!(report.items[1].category, JunkCategory::Cache);
    assert_eq!(report.total_recoverable, 12);
}

#[test]
fn find_junk_is_detection_with_the_default_rules() {
    let root = dir("/p", vec![dir("/p/node_modules", vec![leaf("/p/node_modules/x", 7)]), dir("/p/target", vec![leaf("/p/target/y", 5)]), leaf("/p/z", 1)]);
    let a = find_junk(&root);
    let b = detect_junk(&root, &default_rules());
    assert_eq!(a.total_recoverable, b.total_recoverable);
    assert_eq!(a.total_recoverable, 12);
    let pa: Vec<&str> = a.items.iter().map(|i| i.path.as_str()).collect();
    let pb: Vec<&str> = b.items.iter().map(|i| i.path.as_str()).collect();
    assert_eq!(pa, pb);
    assert_eq!(pa, vec!["/p/node_modules", "/p/target"]);
}
