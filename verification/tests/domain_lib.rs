use diskscope::domain::{
    format_size, DomainError, FileNode, FileType, Filter, ScanResult, SortColumn, SortDirection,
    SortSpec,
};
use std::io;


// ── FileType::from_extension ────────────────────────────────────────

#[test]
fn should_classify_filetype_audio_when_extension_is_mp3() {
    assert_eq!(FileType::from_extension("mp3"), FileType::Audio);
}

#[test]
fn should_classify_filetype_audio_when_extension_is_wav() {
    assert_eq!(FileType::from_extension("wav"), FileType::Audio);
}

#[test]
fn should_classify_filetype_video_when_extension_is_mp4() {
    assert_eq!(FileType::from_extension("mp4"), FileType::Video);
}

#[test]
fn should_classify_filetype_image_when_extension_is_png() {
    assert_eq!(FileType::from_extension("png"), FileType::Image);
}

#[test]
fn should_classify_filetype_document_when_extension_is_pdf() {
    assert_eq!(FileType::from_extension("pdf"), FileType::Document);
}

#[test]
fn should_classify_filetype_code_when_extension_is_rs() {
    assert_eq!(FileType::from_extension("rs"), FileType::Code);
}

#[test]
fn should_classify_filetype_archive_when_extension_is_zip() {
    assert_eq!(FileType::from_extension("zip"), FileType::Archive);
}

#[test]
fn should_classify_filetype_other_when_extension_is_unknown() {
    assert_eq!(FileType::from_extension("xyz"), FileType::Other);
}

#[test]
fn should_classify_filetype_other_when_extension_is_empty() {
    assert_eq!(FileType::from_extension(""), FileType::Other);
}

#[test]
fn should_classify_filetype_case_insensitively_when_extension_is_uppercase() {
    assert_eq!(FileType::from_extension("MP3"), FileType::Audio);
}

// ── FileNode::new ───────────────────────────────────────────────────

#[test]
fn should_reject_empty_path_when_filenode_new_called_with_empty_string() {
    let result = FileNode::new("", 0, 0, FileType::Other);
    assert!(matches!(result, Err(DomainError::InvalidPath(_))));
}

#[test]
fn should_build_filenode_when_new_called_with_valid_path() {
    let node = FileNode::new("/x", 10, 0, FileType::Other).unwrap();
    assert_eq!(node.path, "/x");
    assert_eq!(node.size, 10);
    assert!(node.children.is_empty());
}

// ── ScanResult aggregation ─────────────────────────────────────────

fn sample_tree() -> FileNode {
    // Sizes reflect `normalize_sizes`: directories store the recursive
    // sum of their descendants.
    FileNode {
        path: "/project".into(),
        size: 1500,
        modified: 0,
        file_type: FileType::Directory,
        children: vec![
            FileNode {
                path: "/project/src".into(),
                size: 1000,
                modified: 0,
                file_type: FileType::Directory,
                children: vec![FileNode {
                    path: "/project/src/main.rs".into(),
                    size: 1000,
                    modified: 0,
                    file_type: FileType::Code,
                    children: vec![],
                }],
            },
            FileNode {
                path: "/project/README.md".into(),
                size: 500,
                modified: 0,
                file_type: FileType::Document,
                children: vec![],
            },
        ],
    }
}

#[test]
fn should_aggregate_parent_size_from_children_when_scanresult_with_children_built_from_child_nodes(
) {
    let children = vec![
        FileNode {
            path: "a".into(),
            size: 100,
            modified: 0,
            file_type: FileType::Other,
            children: vec![],
        },
        FileNode {
            path: "b".into(),
            size: 250,
            modified: 0,
            file_type: FileType::Other,
            children: vec![],
        },
    ];
    let result = ScanResult::with_children(children, 7);
    assert_eq!(result.total_size, 350);
    assert_eq!(result.scan_duration_ms, 7);
    assert!(result.root.is_dir());
}

#[test]
fn should_report_zero_files_when_scanresult_empty() {
    let result = ScanResult::with_children(Vec::new(), 0);
    assert_eq!(result.file_count, 1);
    assert_eq!(result.total_size, 0);
}

#[test]
fn should_aggregate_total_size_recursively_when_scanresult_from_tree_built() {
    let result = ScanResult::from_tree(sample_tree(), 42);
    assert_eq!(result.total_size, 1500);
    assert_eq!(result.file_count, 4);
}

// ── Filter::matches ────────────────────────────────────────────────

fn leaf(size: u64, modified: u64, ft: FileType, path: &str) -> FileNode {
    FileNode { path: path.into(), size, modified, file_type: ft, children: vec![] }
}

#[test]
fn should_keep_entry_when_filter_matches_accepts_the_filenode() {
    let filter = Filter::default();
    let node = leaf(100, 0, FileType::Other, "/x");
    assert!(filter.matches(&node));
}

#[test]
fn should_drop_entry_when_filter_matches_rejects_by_min_size() {
    let filter = Filter { min_size: Some(1000), ..Filter::default() };
    let node = leaf(500, 0, FileType::Other, "/x");
    assert!(!filter.matches(&node));
}

#[test]
fn should_drop_entry_when_filter_matches_rejects_by_max_age() {
    let filter = Filter { max_age: Some(100), now: 1000, ..Filter::default() };
    let node = leaf(0, 500, FileType::Other, "/x");
    assert!(!filter.matches(&node));
}

#[test]
fn should_keep_entry_when_filter_matches_accepts_by_max_age() {
    let filter = Filter { max_age: Some(100), now: 1000, ..Filter::default() };
    let node = leaf(0, 950, FileType::Other, "/x");
    assert!(filter.matches(&node));
}

#[test]
fn should_drop_entry_when_filter_matches_rejects_by_name_pattern() {
    let filter = Filter { name_pattern: Some("target".into()), ..Filter::default() };
    let node = leaf(0, 0, FileType::Other, "/project/src");
    assert!(!filter.matches(&node));
}

#[test]
fn should_drop_entry_when_filter_matches_rejects_by_filetype_set() {
    let filter = Filter {
        file_types: Some(vec![FileType::Audio, FileType::Video]),
        ..Filter::default()
    };
    let node = leaf(0, 0, FileType::Code, "/x.rs");
    assert!(!filter.matches(&node));
}

// ── SortSpec::apply ───────────────────────────────────────────────

fn three_unsorted() -> Vec<FileNode> {
    vec![
        leaf(100, 0, FileType::Other, "small.txt"),
        leaf(5000, 0, FileType::Other, "large.txt"),
        leaf(500, 0, FileType::Other, "mid.txt"),
    ]
}

#[test]
fn should_sort_ascending_when_sortspec_apply_called_with_ascending() {
    let mut nodes = three_unsorted();
    let spec = SortSpec { column: SortColumn::Size, direction: SortDirection::Ascending };
    spec.apply(&mut nodes);
    assert_eq!(nodes[0].path, "small.txt");
    assert_eq!(nodes[1].path, "mid.txt");
    assert_eq!(nodes[2].path, "large.txt");
}

#[test]
fn should_sort_descending_when_sortspec_apply_called_with_descending() {
    let mut nodes = three_unsorted();
    let spec = SortSpec { column: SortColumn::Size, direction: SortDirection::Descending };
    spec.apply(&mut nodes);
    assert_eq!(nodes[0].path, "large.txt");
    assert_eq!(nodes[1].path, "mid.txt");
    assert_eq!(nodes[2].path, "small.txt");
}

// ── format_size ────────────────────────────────────────────────────

#[test]
fn should_render_1_0_kib_when_format_size_called_with_1024() {
    assert_eq!(format_size(1024), "1.0 KiB");
}

#[test]
fn should_render_1_5_mib_when_format_size_called_with_1_5_times_1024_times_1024() {
    let bytes = (1.5 * 1024.0 * 1024.0) as u64;
    assert_eq!(format_size(bytes), "1.5 MiB");
}

#[test]
fn should_render_0_b_when_format_size_called_with_0() {
    assert_eq!(format_size(0), "0 B");
}

// ── DomainError ────────────────────────────────────────────────────

#[test]
fn should_carry_source_io_error_when_domainerror_io_returned_with_context() {
    let err = DomainError::from(io::Error::new(io::ErrorKind::NotFound, "missing"));
    // Inner io::Error must be reachable for kind/Display checks.
    match &err {
        DomainError::Io(inner) => {
            assert_eq!(inner.kind(), io::ErrorKind::NotFound);
            assert_eq!(inner.to_string(), "missing");
        }
        other => panic!("expected Io variant, got {other:?}"),
    }
    // Display impl must include both the "io error" prefix and the
    // source message — that's the "context" guarantee the port contract
    // promises callers.
    let rendered = err.to_string();
    assert!(rendered.contains("io error"), "rendered = {rendered}");
    assert!(rendered.contains("missing"), "rendered = {rendered}");
}


#[test]
fn from_path_takes_the_file_name_as_path() {
    let n = FileNode::from_path("/a/b.txt");
    assert_eq!(n.path, "b.txt");
    assert_eq!(n.size, 0);
    assert_eq!(n.modified, 0);
    assert_eq!(n.file_type, FileType::Other);
    assert!(n.children.is_empty());
    assert_eq!(FileNode::from_path("/").path, "/");
}
