use diskscope::engine::format::{json, jsonl, table, tree};
use diskscope::engine::tree::{FileEntry, NodeType, ScanResult, SortDir, SortKey, TreeBuilder};

fn entry(path: &str, name: &str, size: u64, node_type: NodeType, depth: u32) -> FileEntry {
    FileEntry { path: path.to_string(), name: name.to_string(), size, modified: 1_700_000_000, node_type, depth }
}

fn table_result() -> ScanResult {
    TreeBuilder::build(vec![
        entry("/root", "root", 0, NodeType::Dir, 0),
        entry("/root/README.md", "README.md", 500, NodeType::File, 1),
        entry("/root/src", "src", 0, NodeType::Dir, 1),
        entry("/root/src/main.rs", "main.rs", 1024, NodeType::File, 2),
    ])
}

#[test]
fn format_as_table() {
    let result = table_result();
    let output = table::format(&result, None, None);

    assert!(output.contains("Name"), "header missing Name");
    assert!(output.contains("Size"), "header missing Size");
    assert!(output.contains("Modified"), "header missing Modified");
    assert!(output.contains("Type"), "header missing Type");
    assert!(output.contains("README.md"), "missing README.md row");
    assert!(output.contains("main.rs"), "missing main.rs row");
    assert!(output.contains("dir"), "missing dir type");
}

#[test]
fn table_sort_by_size_desc() {
    let result = table_result();
    let output = table::format(&result, Some(SortKey::Size), Some(SortDir::Desc));
    let lines: Vec<&str> = output.lines().collect();

    assert!(lines.len() >= 3);
    let main_pos = lines.iter().position(|l| l.contains("main.rs")).unwrap();
    let readme_pos = lines.iter().position(|l| l.contains("README.md")).unwrap();
    assert!(main_pos < readme_pos, "main.rs (1024) should come before README.md (500)");
}

#[test]
fn table_sort_by_name_asc() {
    let result = table_result();
    let output = table::format(&result, Some(SortKey::Name), Some(SortDir::Asc));
    let lines: Vec<&str> = output.lines().collect();

    let readme_pos = lines.iter().position(|l| l.contains("README.md")).unwrap();
    let main_pos = lines.iter().position(|l| l.contains("main.rs")).unwrap();
    assert!(readme_pos < main_pos, "README.md should come before main.rs alphabetically");
}

#[test]
fn table_rows_have_exact_columns() {
    let result = table_result();
    let output = table::format(&result, None, None);
    let lines: Vec<&str> = output.lines().collect();
    let header = format!("{:<40} {:>12} {:>20} {:<6}", "Name", "Size", "Modified", "Type");
    assert_eq!(lines[0], header);
    assert_eq!(lines[1], "-".repeat(header.len()));
    // 1_700_000_000 s = day 19675, 22:13:20
    let root_row = format!("{:<40} {:>12} {:>20} {:<6}", "root", 1524, "day 19675 22:13:20", "dir");
    assert_eq!(lines[2], root_row);
    let src_row = format!("{:<40} {:>12} {:>20} {:<6}", "  src", 1024, "day 19675 22:13:20", "dir");
    assert_eq!(lines[3], src_row);
    let main_row = format!("{:<40} {:>12} {:>20} {:<6}", "    main.rs", 1024, "day 19675 22:13:20", "rs");
    assert_eq!(lines[4], main_row);
    let readme_row = format!("{:<40} {:>12} {:>20} {:<6}", "  README.md", 500, "day 19675 22:13:20", "md");
    assert_eq!(lines[5], readme_row);
    assert_eq!(lines.len(), 6);
}

#[test]
fn format_as_tree() {
    let result = TreeBuilder::build(vec![
        entry("/root", "root", 0, NodeType::Dir, 0),
        entry("/root/sub", "sub", 0, NodeType::Dir, 1),
        entry("/root/sub/data.rs", "data.rs", 300, NodeType::File, 2),
        entry("/root/README.md", "README.md", 150, NodeType::File, 1),
    ]);

    let output = tree::format(&result);

    assert!(output.starts_with("root/"), "should start with root/");
    assert!(output.contains("[450 B]"), "total_size should be 450");
    assert!(output.contains("├──"), "should contain branch connector");
    assert!(output.contains("└──"), "should contain last-child connector");
    assert!(output.contains("│"), "should contain vertical connector");
    assert!(output.contains("data.rs"), "should contain nested file");
    assert!(output.contains("README.md"), "should contain sibling file");
    assert!(output.contains("[300 B]"), "data.rs size");
    assert!(output.contains("[150 B]"), "README.md size");
}

#[test]
fn tree_rendering_is_exact() {
    let result = TreeBuilder::build(vec![
        entry("/root", "root", 0, NodeType::Dir, 0),
        entry("/root/sub", "sub", 0, NodeType::Dir, 1),
        entry("/root/sub/data.rs", "data.rs", 300, NodeType::File, 2),
        entry("/root/README.md", "README.md", 150, NodeType::File, 1),
    ]);
    let output = tree::format(&result);
    assert_eq!(
        output,
        "root/  [450 B]\n├── sub/  [300 B]\n│   └── data.rs  [300 B]\n└── README.md  [150 B]\n"
    );
}

#[test]
fn tree_sizes_round_to_whole_units() {
    let result = TreeBuilder::build(vec![
        entry("/r", "r", 0, NodeType::Dir, 0),
        entry("/r/a", "a", 1536, NodeType::File, 1),
        entry("/r/b", "b", 2560, NodeType::File, 1),
    ]);
    let output = tree::format(&result);
    // 4096 B = 4 KiB; 2560 = 2.5 KiB rounds to even 2; 1536 = 1.5 KiB rounds to 2.
    assert_eq!(output, "r/  [4 KiB]\n├── b  [2 KiB]\n└── a  [2 KiB]\n");
}

#[test]
fn tree_sizes_in_pib_keep_one_decimal() {
    let p = 1u64 << 50;
    let result = TreeBuilder::build(vec![
        entry("/r", "r", 0, NodeType::Dir, 0),
        entry("/r/a", "a", p + p / 2, NodeType::File, 1),
    ]);
    let output = tree::format(&result);
    assert_eq!(output, "r/  [1.5 PiB]\n└── a  [1.5 PiB]\n");
}

#[test]
fn format_as_json() {
    let result = TreeBuilder::build(vec![
        entry("/root", "root", 0, NodeType::Dir, 0),
        entry("/root/hello.txt", "hello.txt", 512, NodeType::File, 1),
    ]);
    let output = json::format(&result);

    let parsed: serde_json::Value = serde_json::from_str(&output).expect("output must be valid JSON");

    assert_eq!(parsed["total_size"], 512);
    assert_eq!(parsed["entry_count"], 2);
    assert_eq!(parsed["root"]["name"], "root");
    assert_eq!(parsed["root"]["type"], "dir");
    assert_eq!(parsed["root"]["children"][0]["name"], "hello.txt");
    assert_eq!(parsed["root"]["children"][0]["size"], 512);
}

#[test]
fn json_escapes_quotes_and_control_characters() {
    let result = TreeBuilder::build(vec![
        entry("/r", "r", 0, NodeType::Dir, 0),
        entry("/r/q", "a\"b\\c\nd\te", 1, NodeType::File, 1),
    ]);
    let output = json::format(&result);
    assert!(output.contains("\"name\": \"a\\\"b\\\\c\\nd\\te\""));
    let parsed: serde_json::Value = serde_json::from_str(&output).expect("valid JSON");
    assert_eq!(parsed["root"]["children"][0]["name"], "a\"b\\c\nd\te");
}

#[test]
fn json_layout_is_exact_for_a_leaf_root() {
    let result = TreeBuilder::build(vec![entry("/f", "f", 9, NodeType::File, 0)]);
    let output = json::format(&result);
    let expected = "{\n  \"total_size\": 0,\n  \"entry_count\": 1,\n  \"root\": {\n      \"name\": \"f\",\n      \"path\": \"/f\",\n      \"size\": 9,\n      \"total_size\": 0,\n      \"modified\": 1700000000,\n      \"type\": \"file\",\n      \"children\": []\n    }\n}\n";
    assert_eq!(output, expected);
}

#[test]
fn format_as_jsonl() {
    let result = TreeBuilder::build(vec![
        entry("/root", "root", 0, NodeType::Dir, 0),
        entry("/root/a.txt", "a.txt", 100, NodeType::File, 1),
        entry("/root/b.rs", "b.rs", 256, NodeType::File, 1),
    ]);
    let output = jsonl::format(&result);
    let lines: Vec<&str> = output.trim().lines().collect();

    assert_eq!(lines.len(), 4, "expected 4 lines: summary + 3 entries");

    for (i, line) in lines.iter().enumerate() {
        let parsed: Result<serde_json::Value, _> = serde_json::from_str(line);
        assert!(parsed.is_ok(), "line {i} must be valid JSON");
    }

    let summary: serde_json::Value = serde_json::from_str(lines[0]).unwrap();
    assert_eq!(summary["total_size"], 356);
    assert_eq!(summary["entry_count"], 3);

    let entry0: serde_json::Value = serde_json::from_str(lines[1]).unwrap();
    assert_eq!(entry0["name"], "root");
    assert_eq!(entry0["type"], "dir");
    assert_eq!(entry0["depth"], 0);

    let entry1: serde_json::Value = serde_json::from_str(lines[2]).unwrap();
    assert_eq!(entry1["name"], "b.rs");
    assert_eq!(entry1["depth"], 1);
}

#[test]
fn jsonl_line_is_exact() {
    let result = TreeBuilder::build(vec![entry("/s", "s", 3, NodeType::Symlink, 0)]);
    let output = jsonl::format(&result);
    assert_eq!(
        output,
        "{\"total_size\":0,\"entry_count\":1}\n{\"name\":\"s\",\"path\":\"/s\",\"size\":3,\"total_size\":0,\"modified\":1700000000,\"type\":\"symlink\",\"depth\":0}\n"
    );
}
