use diskscope::cli::args::{FormatArg, ScanArgs, SortArg};
use diskscope::cli::summary::summary_text;
use diskscope::domain::{FileNode, FileType, IoKind, PathError, ScanResult, SortColumn, SortDirection, SortSpec};
use diskscope::engine::format::OutputFormat;

fn args() -> ScanArgs {
    ScanArgs {
        path: "/tmp".to_string(),
        format: None,
        sort: None,
        min_size: None,
        max_size: None,
        max_age: None,
        name_pattern: None,
        max_depth: None,
        no_cache: false,
        quiet: false,
        export: None,
    }
}

#[test]
fn format_defaults_to_table() {
    let a = args();
    assert_eq!(a.format, None);
    assert_eq!(a.format(), OutputFormat::Table);
    let a = ScanArgs { format: Some(FormatArg::Json), ..args() };
    assert_eq!(a.format(), OutputFormat::Json);
    assert_eq!(OutputFormat::from(FormatArg::Jsonl), OutputFormat::Jsonl);
    assert_eq!(OutputFormat::from(FormatArg::Tree), OutputFormat::Tree);
}

#[test]
fn sort_args_name_their_spec() {
    assert_eq!(SortSpec::from(SortArg::SizeDesc), SortSpec { column: SortColumn::Size, direction: SortDirection::Descending });
    assert_eq!(SortSpec::from(SortArg::NameAsc), SortSpec { column: SortColumn::Name, direction: SortDirection::Ascending });
    assert_eq!(SortSpec::from(SortArg::TypeDesc), SortSpec { column: SortColumn::Type, direction: SortDirection::Descending });
}

#[test]
fn filter_is_absent_without_filter_arguments() {
    assert!(args().filter().is_none());
    let a = ScanArgs { max_depth: Some(2), ..args() };
    let f = a.filter_at(50).expect("filter");
    assert_eq!(f.max_depth, Some(2));
    assert_eq!(f.now, 50);
    assert!(f.file_types.is_none());
    let a = ScanArgs { min_size: Some(5), name_pattern: Some("log".into()), ..args() };
    let f = a.filter().expect("filter");
    assert_eq!(f.min_size, Some(5));
    assert_eq!(f.name_pattern, Some("log".to_string()));
    assert!(f.now > 0);
}

fn leaf(path: &str, size: u64) -> FileNode {
    FileNode { path: path.to_string(), size, modified: 0, file_type: FileType::Other, children: Vec::new() }
}

#[test]
fn summary_lists_total_count_and_largest_entries() {
    let root = FileNode {
        path: "/r".into(),
        size: 3072,
        modified: 0,
        file_type: FileType::Directory,
        children: vec![leaf("/r/a", 1024), leaf("/r/b", 2048)],
    };
    let mut result = ScanResult::from_tree(root, 0);
    let text = summary_text(&result);
    assert_eq!(
        text,
        "total: 3.0 KiB (3 entries)\ntop 10:\n     3.0 KiB  /r\n     2.0 KiB  /r/b\n     1.0 KiB  /r/a\n"
    );
    result.skipped.push(PathError { path: "/x".into(), kind: IoKind::Other, message: "m".into() });
    assert!(summary_text(&result).ends_with("skipped 1 path(s)\n"));
}

#[test]
fn summary_keeps_only_ten_entries() {
    let children: Vec<FileNode> = (0..12).map(|i| leaf(&format!("/r/{i}"), i)).collect();
    let root = FileNode { path: "/r".into(), size: 66, modified: 0, file_type: FileType::Directory, children };
    let result = ScanResult::from_tree(root, 0);
    let text = summary_text(&result);
    assert_eq!(text.lines().count(), 2 + 10);
    assert!(text.contains("  /r/11\n"));
    assert!(!text.contains("  /r/1\n"));
}
