use diskscope::engine::domain::node::{FileNode, NodeKind, TimePoint};
use diskscope::engine::domain::tree::FileTree;

fn node(name: &str, size: u64, children: Vec<FileNode>) -> FileNode {
    FileNode {
        name: name.to_string(),
        path: name.to_string(),
        size,
        modified: TimePoint { secs: 0, nanos: 0 },
        kind: if children.is_empty() { NodeKind::File } else { NodeKind::Directory },
        children,
    }
}

#[test]
fn should_return_empty_vec_when_flatten_called_on_single_file_tree() {
    let tree = FileTree { root: node("only.txt", 100, vec![]), total_size: 100, file_count: 1, dir_count: 0 };
    let flat = tree.flatten();
    assert_eq!(flat.len(), 1);
    assert_eq!(flat[0].name, "only.txt");
}

#[test]
fn should_group_files_by_extension_when_by_extension_called_on_mixed_tree() {
    let tree = FileTree {
        root: node(
            "root",
            0,
            vec![node("a.txt", 10, vec![]), node("b.txt", 20, vec![]), node("c.mp3", 30, vec![])],
        ),
        total_size: 60,
        file_count: 3,
        dir_count: 1,
    };
    let grouped = tree.by_extension();
    assert_eq!(grouped.get("txt").unwrap().len(), 2);
    assert_eq!(grouped.get("mp3").unwrap().len(), 1);
}

#[test]
fn should_return_n_largest_files_when_top_n_called_with_n_less_than_file_count() {
    let tree = FileTree {
        root: node(
            "root",
            0,
            vec![node("big.bin", 1000, vec![]), node("mid.bin", 500, vec![]), node("small.bin", 10, vec![])],
        ),
        total_size: 1510,
        file_count: 3,
        dir_count: 1,
    };
    let top = tree.top_n(2);
    assert_eq!(top.len(), 2);
    // root dir has total_size 1510 (sum of children), then big.bin at 1000
    assert_eq!(top[0].name, "root");
    assert_eq!(top[1].name, "big.bin");
}
