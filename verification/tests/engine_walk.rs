use diskscope::domain::{FileNode, FileType};
use diskscope::engine::scanner::{IncrementalWalk, ScanConfig, ScanOptions, WalkAction, WalkEvent};
use diskscope::engine::tree::{FileEntry, NodeType};
use diskscope::engine::walktree::{build_tree, try_build_tree, WalkEntry};

fn we(path: &str, rel: &str, size: u64, is_dir: bool) -> WalkEntry {
    WalkEntry {
        path: path.to_string(),
        rel: rel.to_string(),
        size,
        modified: 5,
        is_dir,
        file_type: if is_dir { FileType::Directory } else { FileType::Other },
    }
}

#[test]
fn walk_entries_fold_into_a_sized_tree_in_path_order() {
    let entries = vec![
        we("/r", "", 4096, true),
        we("/r/z.txt", "z.txt", 10, false),
        we("/r/d", "d", 4096, true),
        we("/r/d/b", "d/b", 2, false),
        we("/r/d/a", "d/a", 3, false),
        we("/r/e", "e", 4096, true),
    ];
    let t = build_tree("/r", &entries);
    assert_eq!(t.path, "/r");
    assert_eq!(t.file_type, FileType::Directory);
    assert_eq!(t.modified, 5);
    let names: Vec<&str> = t.children.iter().map(|c| c.path.as_str()).collect();
    assert_eq!(names, vec!["/r/d", "/r/e", "/r/z.txt"]);
    let d = &t.children[0];
    let kids: Vec<&str> = d.children.iter().map(|c| c.path.as_str()).collect();
    assert_eq!(kids, vec!["/r/d/a", "/r/d/b"]);
    assert_eq!(d.size, 5);
    // an empty directory keeps its own size
    assert_eq!(t.children[1].size, 4096);
    assert_eq!(t.size, 5 + 4096 + 10);
}

#[test]
fn no_entries_give_an_empty_root() {
    let t = build_tree("/r", &Vec::new());
    assert_eq!(t, FileNode { path: "/r".into(), size: 0, modified: 0, file_type: FileType::Directory, children: vec![] });
}

#[test]
fn sums_that_do_not_fit_are_reported() {
    let entries = vec![we("/r/a", "a", u64::MAX, false), we("/r/b", "b", 1, false)];
    assert!(try_build_tree("/r", &entries).is_none());
    let entries = vec![we("/r/a", "a", u64::MAX - 1, false), we("/r/b", "b", 1, false)];
    assert_eq!(try_build_tree("/r", &entries).unwrap().size, u64::MAX);
}

#[test]
fn options_default_and_convert() {
    let o = ScanOptions::default();
    assert!(o.respect_gitignore);
    assert!(!o.follow_symlinks);
    assert!(o.max_depth.is_none());
    let c = ScanConfig { max_depth: Some(3), ..ScanConfig::default() };
    let o = c.to_scan_options();
    assert_eq!(o.max_depth, Some(3));
    assert!(o.respect_gitignore);
}

fn ev(depth: usize, path: &str, is_dir: bool, meta: Option<(u64, u64)>, cached: Option<(u64, NodeType)>) -> WalkEvent {
    WalkEvent {
        depth,
        components: 2 + depth,
        path: path.to_string(),
        name: path.rsplit('/').next().unwrap().to_string(),
        is_dir,
        is_symlink: false,
        meta,
        cached,
    }
}

#[test]
fn incremental_walk_reuses_unchanged_directories() {
    let mut w = IncrementalWalk::new(2);
    match w.step(ev(0, "/r", true, Some((0, 9)), None)) {
        WalkAction::Record(e) => {
            assert_eq!(e.node_type, NodeType::Dir);
            assert_eq!(e.depth, 0);
            assert_eq!(e.modified, 9);
            assert_eq!(e.size, 0);
        }
        other => panic!("unexpected {other:?}"),
    }
    match w.step(ev(1, "/r/c", true, Some((0, 4)), Some((4, NodeType::Dir)))) {
        WalkAction::Reuse { depth } => assert_eq!(depth, 1),
        other => panic!("unexpected {other:?}"),
    }
    assert!(matches!(w.step(ev(2, "/r/c/x", false, Some((1, 1)), None)), WalkAction::Skip));
    let cached = FileEntry { path: "/r/c".into(), name: "c".into(), size: 0, modified: 4, node_type: NodeType::Dir, depth: 7 };
    w.add_reused_root(cached, 1);
    let under = FileEntry { path: "/r/c/x".into(), name: "x".into(), size: 1, modified: 1, node_type: NodeType::File, depth: 0 };
    w.add_reused_descendant(under, 1, 4, 3);
    match w.step(ev(1, "/r/f", false, Some((8, 3)), None)) {
        WalkAction::Record(e) => {
            assert_eq!(e.node_type, NodeType::File);
            assert_eq!(e.size, 8);
            assert_eq!(e.depth, 1);
        }
        other => panic!("unexpected {other:?}"),
    }
    assert!(matches!(w.step(ev(1, "/r/g", false, None, None)), WalkAction::Skip));
    let depths: Vec<u32> = w.entries.iter().map(|e| e.depth).collect();
    assert_eq!(depths, vec![0, 1, 2, 1]);
    // a changed directory is walked again
    match w.step(ev(1, "/r/h", true, Some((0, 6)), Some((5, NodeType::Dir)))) {
        WalkAction::Record(e) => assert_eq!(e.modified, 6),
        other => panic!("unexpected {other:?}"),
    }
}
