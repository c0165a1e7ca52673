use diskscope::domain::{FileNode, FileType, ScanResult};
use diskscope::engine::formats::{render_tree, OutputFormat};

fn node(path: &str, size: u64, file_type: FileType, children: Vec<FileNode>) -> FileNode {
    FileNode { path: path.into(), size, modified: 0, file_type, children }
}

#[test]
fn tree_output_draws_branch_glyphs() {
    let root = node(
        "",
        12,
        FileType::Directory,
        vec![
            node("docs", 3, FileType::Directory, vec![node("readme.md", 3, FileType::Document, vec![])]),
            node("top.txt", 9, FileType::Other, vec![]),
        ],
    );
    let r = ScanResult::from_tree(root, 0);
    let out = render_tree(&r);
    let lines: Vec<&str> = out.lines().collect();
    assert_eq!(lines.len(), 4);
    assert!(lines[1].contains("├── docs"));
    assert!(lines[2].contains("└── readme.md"));
    assert!(lines[2].starts_with("    │   "));
    assert!(lines[3].contains("└── top.txt"));
    assert_eq!(OutputFormat::parse("tree"), Some(OutputFormat::Tree));
}
