use diskscope::domain::{FileNode, FileType, ScanResult};
use diskscope::engine::snapshot::{build_json, file_type_label, render_html_snapshot, DEFAULT_MAX_NODES};


// ── Test helpers ────────────────────────────────────────────────────

fn leaf(path: &str, size: u64, file_type: FileType) -> FileNode {
    FileNode { path: path.to_string(), size, modified: 0, file_type, children: Vec::new() }
}

fn dir(path: &str, children: Vec<FileNode>) -> FileNode {
    FileNode {
        path: path.to_string(),
        size: children.iter().map(|c| c.total_size()).sum(),
        modified: 0,
        file_type: FileType::Directory,
        children,
    }
}

fn simple_result() -> ScanResult {
    ScanResult::from_tree(
        dir(
            "/test",
            vec![
                leaf("file_a.txt", 100, FileType::Document),
                dir("sub", vec![leaf("file_b.bin", 300, FileType::Other)]),
            ],
        ),
        0,
    )
}

// ── render_html_snapshot ─────────────────────────────────────────────

#[test]
fn should_produce_doctype_html_when_rendering_snapshot() {
    let result = simple_result();
    let html = render_html_snapshot(&result, "Test", DEFAULT_MAX_NODES);

    assert!(html.contains("<!DOCTYPE html>"), "missing doctype");
    assert!(html.contains("<html"), "missing html tag");
    assert!(html.contains("</html>"), "missing closing html tag");
}

#[test]
fn should_embed_tree_paths_in_json_when_rendering_snapshot() {
    let result = simple_result();
    let html = render_html_snapshot(&result, "Test", DEFAULT_MAX_NODES);

    assert!(html.contains(r#""path":"/test""#), "missing root path");
    assert!(html.contains(r#""path":"file_a.txt""#), "missing file_a.txt");
    assert!(html.contains(r#""path":"sub""#), "missing sub dir");
    assert!(html.contains(r#""path":"file_b.bin""#), "missing file_b.bin");
}

#[test]
fn should_include_title_in_output_when_rendering_snapshot() {
    let result = simple_result();
    let html = render_html_snapshot(&result, "My Scan", DEFAULT_MAX_NODES);

    assert!(html.contains("My Scan"), "title missing from output");
}

#[test]
fn should_escape_html_entities_in_title_when_title_has_special_chars() {
    let result = simple_result();
    let html = render_html_snapshot(&result, "A <b>bold</b> & \"quoted\"", DEFAULT_MAX_NODES);

    assert!(!html.contains("<b>"), "raw HTML tag in title: {html}");
    assert!(html.contains("&lt;b&gt;"), "escaped tag missing");
    assert!(html.contains("&amp;"), "escaped ampersand missing");
}

#[test]
fn should_truncate_large_trees_when_exceeding_max_nodes() {
    // Build a tree with 200 nodes.
    let children: Vec<FileNode> =
        (0..200).map(|i| leaf(&format!("f{i}.txt"), 10, FileType::Other)).collect();
    let result = ScanResult::from_tree(dir("/big", children), 0);

    let html = render_html_snapshot(&result, "Big", 10);

    // The TREE JSON should have fewer than 200 entries.
    let count_f = html.matches(r#""path":""#).count();
    assert!(count_f <= 12, "expected <= 12 node entries, got {count_f}");
    // Truncation note should be present.
    assert!(html.contains("top entries by size"), "missing truncation note");
}

#[test]
fn should_not_show_truncation_note_when_tree_within_limit() {
    let result = simple_result();
    let html = render_html_snapshot(&result, "Small", DEFAULT_MAX_NODES);

    assert!(!html.contains("top entries by size"), "should not show truncation note");
}

#[test]
fn should_embed_valid_json_in_tree_const_when_rendering_snapshot() {
    let result = simple_result();
    let html = render_html_snapshot(&result, "Test", DEFAULT_MAX_NODES);

    // Extract TREE JSON: find `const TREE = ` and then parse the JSON.
    let marker = "const TREE = ";
    let start = html.find(marker).expect("TREE marker missing") + marker.len();
    // Find end of the JSON object (match braces).
    let bytes = html[start..].as_bytes();
    let mut depth = 0i32;
    let mut end = 0;
    for (i, &b) in bytes.iter().enumerate() {
        if b == b'{' {
            depth += 1;
        } else if b == b'}' {
            depth -= 1;
            if depth == 0 {
                end = i + 1;
                break;
            }
        }
    }
    assert!(end > 0, "unbalanced braces in TREE JSON");
    let json_str = &html[start..start + end];
    let parsed: serde_json::Value =
        serde_json::from_str(json_str).expect("TREE should be valid JSON");
    assert!(parsed.is_object(), "TREE should be a JSON object");
    assert_eq!(parsed["path"], "/test");
    assert!(parsed["children"].is_array());
}

#[test]
fn should_contain_canvas_and_sidebar_elements_when_rendering_snapshot() {
    let result = simple_result();
    let html = render_html_snapshot(&result, "Test", DEFAULT_MAX_NODES);

    assert!(html.contains("<canvas"), "missing canvas element");
    assert!(html.contains("id=\"sidebar\""), "missing sidebar element");
    assert!(html.contains("id=\"breadcrumb\""), "missing breadcrumb element");
    assert!(html.contains("<table"), "missing table element");
}

#[test]
fn should_include_dark_theme_background_when_rendering_snapshot() {
    let result = simple_result();
    let html = render_html_snapshot(&result, "Test", DEFAULT_MAX_NODES);

    assert!(html.contains("#0f172a"), "missing dark theme background");
    assert!(html.contains("#1e293b"), "missing surface color");
    assert!(html.contains("#2563eb"), "missing accent color");
}

#[test]
fn should_contain_squarify_function_when_rendering_snapshot() {
    let result = simple_result();
    let html = render_html_snapshot(&result, "Test", DEFAULT_MAX_NODES);

    assert!(html.contains("function squarify"), "missing squarify function");
    assert!(html.contains("function formatSize"), "missing formatSize function");
}

// ── build_json ──────────────────────────────────────────────────────

#[test]
fn should_emit_valid_json_when_building_tree_json() {
    let node = leaf("test.txt", 42, FileType::Document);
    let json = build_json(&node, 1000);

    let parsed: serde_json::Value =
        serde_json::from_str(&json).expect("should produce valid JSON");
    assert_eq!(parsed["path"], "test.txt");
    assert_eq!(parsed["size"], 42);
    assert_eq!(parsed["fileType"], "document");
}

// ── escape_json ─────────────────────────────────────────────────────

#[test]
fn should_escape_special_chars_when_path_has_quotes_and_backslashes() {
    let node = FileNode {
        path: r#"a"b\c"n"d"#.to_string(),
        size: 1,
        modified: 0,
        file_type: FileType::Other,
        children: Vec::new(),
    };
    let json = build_json(&node, 1000);

    let parsed: serde_json::Value =
        serde_json::from_str(&json).expect("should produce valid JSON despite special chars");
    assert_eq!(parsed["path"], r#"a"b\c"n"d"#);
}

// ── file_type_label ─────────────────────────────────────────────────

#[test]
fn should_map_all_file_types_to_short_labels_when_converting() {
    assert_eq!(file_type_label(FileType::Audio), "audio");
    assert_eq!(file_type_label(FileType::Video), "video");
    assert_eq!(file_type_label(FileType::Image), "image");
    assert_eq!(file_type_label(FileType::Document), "document");
    assert_eq!(file_type_label(FileType::Code), "code");
    assert_eq!(file_type_label(FileType::Archive), "archive");
    assert_eq!(file_type_label(FileType::Directory), "dir");
    assert_eq!(file_type_label(FileType::Other), "other");
}

