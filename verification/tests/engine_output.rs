use diskscope::engine::domain::filter::{Filter, FilterSet};
use diskscope::engine::domain::node::{FileNode, NodeKind, TimePoint};
use diskscope::engine::domain::tree::FileTree;
use diskscope::engine::output::{human_size, OutputFormat};


fn make_file(name: &str, size: u64) -> FileNode {
    FileNode {
        name: name.to_owned(),
        path: format!("/root/{}", name),
        size,
        modified: TimePoint { secs: 1_700_000_000, nanos: 0 },
        kind: NodeKind::File,
        children: Vec::new(),
    }
}

fn make_dir(name: &str, children: Vec<FileNode>) -> FileNode {
    let size = children.iter().map(|c| c.total_size()).sum();
    FileNode {
        name: name.to_owned(),
        path: format!("/root/{}", name),
        size,
        modified: TimePoint { secs: 1_700_000_000, nanos: 0 },
        kind: NodeKind::Directory,
        children,
    }
}

fn sample_tree() -> FileTree {
    let root = make_dir(
        "root",
        vec![
            make_dir(
                "src",
                vec![
                    make_file("main.rs", 1024),
                    make_file("lib.rs", 2048),
                ],
            ),
            make_file("readme.md", 512),
        ],
    );
    let total_size = root.total_size();
    FileTree {
        root,
        total_size,
        file_count: 3,
        dir_count: 2,
    }
}

// Test 8: should output valid JSON when format is Json
#[test]
fn format_json_output() {
    let tree = sample_tree();
    let filters = FilterSet::new();
    let out = OutputFormat::Json.format(&tree, &filters).unwrap();
    assert!(out.contains("\"total_size\""));
    assert!(out.contains("\"root\""));
    assert!(out.contains("\"main.rs\""));
    assert!(out.contains("\"lib.rs\""));
}

// Test 9: should output indented tree when format is Tree
#[test]
fn format_tree_output() {
    let tree = sample_tree();
    let filters = FilterSet::new();
    let out = OutputFormat::Tree.format(&tree, &filters).unwrap();
    assert!(out.contains("root"));
    assert!(out.contains("├──"));
    assert!(out.contains("└──"));
    assert!(out.contains("main.rs"));
}

// Test 10: should apply filters to output when filter set is non-empty
#[test]
fn format_applies_filters() {
    let tree = sample_tree();
    let mut filters = FilterSet::new();
    filters.push(Filter::MinSize(1000));
    let out = OutputFormat::Jsonl.format(&tree, &filters).unwrap();
    assert!(out.contains("main.rs"));
    assert!(out.contains("lib.rs"));
    // readme.md is 512 bytes, below 1000 threshold.
    assert!(!out.contains("readme.md"));
}

#[test]
fn format_jsonl_output() {
    let tree = sample_tree();
    let filters = FilterSet::new();
    let out = OutputFormat::Jsonl.format(&tree, &filters).unwrap();
    let lines: Vec<&str> = out.lines().collect();
    // Root + src dir + main.rs + lib.rs + readme.md = 5 lines
    assert_eq!(lines.len(), 5);
    for line in &lines {
        assert!(line.starts_with('{'));
        assert!(line.ends_with('}'));
    }
}

#[test]
fn format_table_output() {
    let tree = sample_tree();
    let filters = FilterSet::new();
    let out = OutputFormat::Table.format(&tree, &filters).unwrap();
    assert!(out.contains("Name"));
    assert!(out.contains("Size"));
    assert!(out.contains("Modified"));
    assert!(out.contains("Type"));
}

#[test]
fn display_format_names() {
    assert_eq!(OutputFormat::Json.to_string(), "json");
    assert_eq!(OutputFormat::Jsonl.to_string(), "jsonl");
    assert_eq!(OutputFormat::Table.to_string(), "table");
    assert_eq!(OutputFormat::Tree.to_string(), "tree");
}

#[test]
fn tree_format_respects_filters_for_children() {
    let tree = sample_tree();
    let mut filters = FilterSet::new();
    filters.push(Filter::MinSize(1000));
    let out = OutputFormat::Tree.format(&tree, &filters).unwrap();
    // src/ children should appear (both > 1000), readme.md should not
    assert!(out.contains("main.rs"));
    assert!(!out.contains("readme.md"));
}

#[test]
fn human_size_formats_correctly() {
    assert_eq!(human_size(0), "0.0 B");
    assert_eq!(human_size(512), "512.0 B");
    assert_eq!(human_size(1024), "1.0 KiB");
    assert_eq!(human_size(1536), "1.5 KiB");
    assert_eq!(human_size(1_048_576), "1.0 MiB");
    assert_eq!(human_size(1_073_741_824), "1.0 GiB");
}

