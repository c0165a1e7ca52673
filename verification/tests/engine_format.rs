use diskscope::domain::{FileNode, FileType, ScanResult};
use diskscope::engine::format::{jsonl_values, render_table, render_tree, OutputFormat};

/// Leaf node with the given path, size, and file type.
fn leaf(path: &str, size: u64, file_type: FileType) -> FileNode {
    FileNode { path: path.to_string(), size, modified: 0, file_type, children: Vec::new() }
}

/// Directory node with the given path and children.
fn dir(path: &str, children: Vec<FileNode>) -> FileNode {
    FileNode {
        path: path.to_string(),
        size: children.iter().map(|c| c.total_size()).sum(),
        modified: 0,
        file_type: FileType::Directory,
        children,
    }
}

/// Synthetic root with no children (empty path reserved for roots).
fn empty_root() -> FileNode {
    FileNode { path: String::new(), size: 0, modified: 0, file_type: FileType::Directory, children: Vec::new() }
}

/// The text output of the table and tree renderers.
fn render_to_string(result: &ScanResult, fmt: OutputFormat) -> String {
    match fmt {
        OutputFormat::Table => render_table(result),
        OutputFormat::Tree => render_tree(result),
        _ => panic!("JSON output is serialised by the application"),
    }
}

#[test]
fn should_write_header_when_result_is_empty() {
    let result = ScanResult::from_tree(empty_root(), 0);
    let output = render_to_string(&result, OutputFormat::Table);
    let lines: Vec<&str> = output.lines().collect();
    assert_eq!(lines.len(), 2, "header plus root row");
    assert_eq!(lines[0], "        SIZE                MTIME  TYPE        PATH");
    assert!(lines[1].contains("Directory"), "root row: {}", lines[1]);
}

#[test]
fn should_align_columns_when_rows_have_varying_widths() {
    let result = ScanResult::from_tree(
        dir(
            "",
            vec![
                leaf("tiny.bin", 42, FileType::Other),
                leaf("medium.bin", 1_572_864, FileType::Audio),
                leaf("very-long-name.bin", 10_485_760, FileType::Document),
            ],
        ),
        0,
    );
    let output = render_to_string(&result, OutputFormat::Table);
    let rows: Vec<&str> = output.lines().skip(1).collect();
    assert!(rows.len() >= 4, "expected root + 3 data rows: {output}");
    let path_starts: Vec<usize> =
        rows.iter().map(|line| line.rfind("  ").map(|i| i + 2).unwrap_or(0)).collect();
    assert!(
        path_starts.windows(2).all(|w| w[0] == w[1]),
        "PATH column starts at inconsistent offsets: {path_starts:?}"
    );
}

#[test]
fn should_show_human_readable_sizes_when_bytes_are_large() {
    let result = ScanResult::from_tree(
        dir(
            "",
            vec![
                leaf("empty.bin", 0, FileType::Other),
                leaf("kib.bin", 1024, FileType::Other),
                leaf("mib.bin", 1_572_864, FileType::Other),
            ],
        ),
        0,
    );
    let output = render_to_string(&result, OutputFormat::Table);
    assert!(output.contains("0 B"), "got: {output}");
    assert!(output.contains("1.0 KiB"), "got: {output}");
    assert!(output.contains("1.5 MiB"), "got: {output}");
}

#[test]
fn should_write_one_line_per_node_when_tree_is_nested() {
    let result = ScanResult::from_tree(
        dir(
            "",
            vec![dir("sub", vec![leaf("deep.txt", 5, FileType::Document)]), leaf("top.bin", 7, FileType::Other)],
        ),
        0,
    );
    // One JSON Lines record per node: root + sub + deep + top.
    assert_eq!(jsonl_values(&result).len(), 4);
}

#[test]
fn should_use_branch_glyphs_when_rendering_nested_nodes() {
    let result = ScanResult::from_tree(
        dir(
            "",
            vec![dir("docs", vec![leaf("readme.md", 3, FileType::Document)]), leaf("top.txt", 9, FileType::Other)],
        ),
        0,
    );
    let output = render_to_string(&result, OutputFormat::Tree);
    let docs_line = output.lines().find(|l| l.contains("docs [")).unwrap();
    assert!(docs_line.contains("├── docs"), "got: {docs_line}");
    let top_line = output.lines().find(|l| l.contains("top.txt")).unwrap();
    assert!(top_line.contains("└── top.txt"), "got: {top_line}");
    let readme_line = output.lines().find(|l| l.contains("readme.md")).unwrap();
    assert!(readme_line.contains("└── readme.md"), "got: {readme_line}");
    assert!(readme_line.starts_with("    "), "expected indent, got: {readme_line}");
}

#[test]
fn should_indent_children_when_rendering_nested_tree() {
    let result = ScanResult::from_tree(
        dir("", vec![dir("docs", vec![leaf("readme.md", 3, FileType::Document)])]),
        0,
    );
    let output = render_to_string(&result, OutputFormat::Tree);
    let lines: Vec<&str> = output.lines().collect();
    assert_eq!(lines.len(), 3, "root + docs + readme.md: {output}");
    assert!(lines[1].contains("└── docs"), "got: {}", lines[1]);
    assert!(
        lines[2].starts_with("    ") && lines[2].contains("└── readme.md"),
        "expected indentation + glyph, got: {}",
        lines[2]
    );
}

#[test]
fn should_write_nothing_beyond_root_when_result_is_empty() {
    let result = ScanResult::from_tree(empty_root(), 0);
    let table = render_to_string(&result, OutputFormat::Table);
    let tree = render_to_string(&result, OutputFormat::Tree);
    assert_eq!(table.lines().count(), 2, "table: {table}");
    // JSON Lines: exactly one record — the root itself.
    assert_eq!(jsonl_values(&result).len(), 1);
    assert_eq!(tree.lines().count(), 1, "tree: {tree}");
}

#[test]
fn parse_accepts_each_format_name_in_any_case() {
    assert_eq!(OutputFormat::parse("TABLE"), Some(OutputFormat::Table));
    assert_eq!(OutputFormat::parse("json"), Some(OutputFormat::Json));
    assert_eq!(OutputFormat::parse("JsonL"), Some(OutputFormat::Jsonl));
    assert_eq!(OutputFormat::parse("tree"), Some(OutputFormat::Tree));
    assert_eq!(OutputFormat::parse("yaml"), None);
}
