use diskscope::domain::{FileNode, FileType, ScanResult};
use diskscope::engine::cache::{byte_to_file_type, file_type_to_byte, CachedNode, CachedScanResult};

fn tree() -> FileNode {
    FileNode {
        path: "/r".into(),
        size: 30,
        modified: 7,
        file_type: FileType::Directory,
        children: vec![
            FileNode { path: "/r/a.mp3".into(), size: 10, modified: 1, file_type: FileType::Audio, children: vec![] },
            FileNode {
                path: "/r/d".into(),
                size: 20,
                modified: 2,
                file_type: FileType::Directory,
                children: vec![FileNode { path: "/r/d/x.zip".into(), size: 20, modified: 3, file_type: FileType::Archive, children: vec![] }],
            },
        ],
    }
}

#[test]
fn file_types_round_trip_through_their_byte() {
    let all = [
        FileType::Audio,
        FileType::Video,
        FileType::Image,
        FileType::Document,
        FileType::Code,
        FileType::Archive,
        FileType::Directory,
        FileType::Other,
    ];
    for (i, t) in all.iter().enumerate() {
        assert_eq!(file_type_to_byte(*t), i as u8);
        assert_eq!(byte_to_file_type(file_type_to_byte(*t)), *t);
    }
    assert_eq!(byte_to_file_type(200), FileType::Other);
}

#[test]
fn nested_tree_round_trips_through_the_cache_form() {
    let t = tree();
    let stored = CachedNode::from_domain(&t);
    assert_eq!(stored.children[1].children[0].file_type, 5);
    assert_eq!(stored.into_domain(), t);
}

#[test]
fn cached_result_reads_back_with_its_metadata() {
    let r = ScanResult::from_tree(tree(), 99);
    let stored = CachedScanResult::new(&r, 1234, 30);
    let (back, mtime, size) = stored.into_result();
    assert_eq!(mtime, 1234);
    assert_eq!(size, 30);
    assert_eq!(back.root, tree());
    assert_eq!(back.total_size, 30);
    assert_eq!(back.file_count, 4);
    assert_eq!(back.scan_duration_ms, 0);
    assert!(back.skipped.is_empty());
}
