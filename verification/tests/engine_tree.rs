use diskscope::engine::tree::{FileEntry, NodeType, TreeBuilder};

fn name_of(path: &str) -> String {
    path.rsplit('/').next().unwrap_or("").to_string()
}

fn file(path: &str, size: u64) -> FileEntry {
    FileEntry {
        path: path.to_string(),
        name: name_of(path),
        size,
        modified: 1_700_000_000,
        node_type: NodeType::File,
        depth: path.matches('/').count() as u32,
    }
}

fn dir(path: &str) -> FileEntry {
    FileEntry {
        path: path.to_string(),
        name: name_of(path),
        size: 0,
        modified: 1_700_000_000,
        node_type: NodeType::Dir,
        depth: path.matches('/').count() as u32,
    }
}

#[test]
fn build_tree_parent_child_nesting() {
    let entries = vec![dir("/root"), dir("/root/sub"), file("/root/a.txt", 100), file("/root/sub/b.txt", 200)];
    let result = TreeBuilder::build(entries);

    assert_eq!(result.root.entry.path, "/root");
    assert_eq!(result.root.children.len(), 2);

    let sub = result
        .root
        .children
        .iter()
        .find(|c| c.entry.node_type == NodeType::Dir)
        .expect("sub dir");
    assert_eq!(sub.children.len(), 1);
    assert_eq!(sub.children[0].entry.name, "b.txt");
}

#[test]
fn build_tree_total_size_and_count() {
    let entries = vec![
        dir("/root"),
        dir("/root/sub"),
        file("/root/a.txt", 50),
        file("/root/sub/b.txt", 30),
        file("/root/sub/c.txt", 70),
    ];
    let result = TreeBuilder::build(entries);

    assert_eq!(result.total_size, 150);
    assert_eq!(result.entry_count, 5);
}

#[test]
fn build_tree_sorts_by_size_desc() {
    let entries = vec![
        dir("/root"),
        file("/root/small.txt", 10),
        file("/root/big.txt", 500),
        file("/root/medium.txt", 100),
    ];
    let result = TreeBuilder::build(entries);

    assert_eq!(result.root.children[0].entry.name, "big.txt");
    assert_eq!(result.root.children[1].entry.name, "medium.txt");
    assert_eq!(result.root.children[2].entry.name, "small.txt");
}

#[test]
fn build_tree_structure_correct_for_name_sort_test() {
    let entries = vec![
        dir("/root"),
        file("/root/zebra.txt", 10),
        file("/root/alpha.txt", 10),
        file("/root/middle.txt", 10),
    ];
    let result = TreeBuilder::build(entries);

    assert_eq!(result.root.children.len(), 3);
    assert_eq!(result.total_size, 30);
}

#[test]
fn build_tree_of_no_entries_is_an_empty_directory() {
    let result = TreeBuilder::build(Vec::new());
    assert_eq!(result.root.entry.path, "");
    assert_eq!(result.root.entry.node_type, NodeType::Dir);
    assert!(result.root.children.is_empty());
    assert_eq!(result.total_size, 0);
    assert_eq!(result.entry_count, 0);
}

#[test]
fn build_tree_keeps_the_last_entry_given_for_a_path() {
    let entries = vec![dir("/root"), file("/root/a.txt", 10), file("/root/a.txt", 40)];
    let result = TreeBuilder::build(entries);
    assert_eq!(result.root.children.len(), 1);
    assert_eq!(result.root.children[0].total_size, 40);
    assert_eq!(result.entry_count, 2);
}

#[test]
fn build_tree_keeps_equal_sizes_in_input_order() {
    let entries = vec![dir("/root"), file("/root/z.txt", 5), file("/root/a.txt", 5)];
    let result = TreeBuilder::build(entries);
    assert_eq!(result.root.children[0].entry.name, "z.txt");
    assert_eq!(result.root.children[1].entry.name, "a.txt");
}

#[test]
fn build_tree_roots_at_the_first_shortest_path_anywhere_in_the_list() {
    let entries = vec![file("/data/sub/x.bin", 7), dir("/data/sub"), dir("/data")];
    let result = TreeBuilder::build(entries);
    assert_eq!(result.root.entry.path, "/data");
    assert_eq!(result.root.children.len(), 1);
    assert_eq!(result.root.children[0].children[0].total_size, 7);
    assert_eq!(result.total_size, 7);
}

#[test]
fn build_tree_ignores_a_directory_entrys_own_size() {
    let mut d = dir("/root/sub");
    d.size = 4096;
    let entries = vec![dir("/root"), d, file("/root/sub/f", 3)];
    let result = TreeBuilder::build(entries);
    assert_eq!(result.root.children[0].total_size, 3);
    assert_eq!(result.total_size, 3);
}

#[test]
fn try_build_reports_a_total_that_does_not_fit() {
    let entries = vec![dir("/root"), file("/root/a", u64::MAX), file("/root/b", 1)];
    assert!(TreeBuilder::try_build(entries).is_none());
    let entries = vec![dir("/root"), file("/root/a", u64::MAX - 1), file("/root/b", 1)];
    let result = TreeBuilder::try_build(entries).expect("fits");
    assert_eq!(result.total_size, u64::MAX);
}
