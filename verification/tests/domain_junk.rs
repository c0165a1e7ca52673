use diskscope::domain::junk::{detect_junk, JunkCategory, JunkRule};
use diskscope::domain::FileNode;


/// Helper: build a `FileNode` with the given path, size, and children.
fn make_dir(path: &str, size: u64, children: Vec<FileNode>) -> FileNode {
    FileNode {
        path: path.to_string(),
        size,
        modified: 0,
        file_type: diskscope::domain::FileType::Directory,
        children,
    }
}

#[test]
fn should_report_outermost_match_and_skip_children() {
    // /project/node_modules/.cache (50 bytes inside 100-byte node_modules)
    let inner = make_dir("/project/node_modules/.cache", 50, vec![]);
    let nm = make_dir("/project/node_modules", 100, vec![inner]);
    let root = make_dir("/project", 150, vec![nm]);

    let rules = vec![
        JunkRule { name: "node_modules", dir_name: "node_modules", category: JunkCategory::Regenerable, description: "" },
        JunkRule { name: ".cache", dir_name: ".cache", category: JunkCategory::Cache, description: "" },
    ];

    let report = detect_junk(&root, &rules);

    assert_eq!(report.items.len(), 1);
    assert_eq!(report.items[0].size, 100);
    assert_eq!(report.items[0].rule_name, "node_modules");
    assert_eq!(report.total_recoverable, 100);
}

#[test]
fn should_report_separate_outermost_matches_in_different_subtrees() {
    let a_nm = make_dir("/project/a/node_modules", 10, vec![]);
    let a = make_dir("/project/a", 10, vec![a_nm]);
    let b_nm = make_dir("/project/b/node_modules", 20, vec![]);
    let b = make_dir("/project/b", 20, vec![b_nm]);
    let root = make_dir("/project", 30, vec![a, b]);

    let rules = vec![
        JunkRule { name: "node_modules", dir_name: "node_modules", category: JunkCategory::Regenerable, description: "" },
    ];
    let report = detect_junk(&root, &rules);

    assert_eq!(report.items.len(), 2);
    assert_eq!(report.total_recoverable, 30);
}

#[test]
fn should_return_empty_report_when_no_junk_found() {
    let src = make_dir("/project/src", 500, vec![]);
    let root = make_dir("/project", 500, vec![src]);

    let rules = vec![
        JunkRule { name: "node_modules", dir_name: "node_modules", category: JunkCategory::Regenerable, description: "" },
    ];
    let report = detect_junk(&root, &rules);

    assert!(report.items.is_empty());
    assert_eq!(report.total_recoverable, 0);
}

#[test]
fn should_match_multiple_rule_types_in_same_tree() {
    let nm = make_dir("/project/node_modules", 100, vec![]);
    let target = make_dir("/project/target", 200, vec![]);
    let root = make_dir("/project", 300, vec![nm, target]);

    let rules = vec![
        JunkRule { name: "node_modules", dir_name: "node_modules", category: JunkCategory::Regenerable, description: "" },
        JunkRule { name: "target", dir_name: "target", category: JunkCategory::BuildArtifact, description: "" },
    ];
    let report = detect_junk(&root, &rules);

    assert_eq!(report.items.len(), 2);
    assert_eq!(report.total_recoverable, 300);
}

