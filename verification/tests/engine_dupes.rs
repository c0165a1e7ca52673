use diskscope::domain::{FileNode, FileType};
use diskscope::engine::dupes::{digest_hex, hex_encode, DupeSearch, DEFAULT_MIN_SIZE, PARTIAL_HASH_BYTES};

fn file_node(path: &str, size: u64) -> FileNode {
    FileNode { path: path.to_string(), size, modified: 0, file_type: FileType::Other, children: Vec::new() }
}

fn dir_node(path: &str, children: Vec<FileNode>) -> FileNode {
    let size = children.iter().map(|c| c.size).sum();
    FileNode { path: path.to_string(), size, modified: 0, file_type: FileType::Directory, children }
}

/// Runs a whole search, reading each file's bytes from `contents` (a
/// missing path is an unreadable file).
fn run(root: &FileNode, min_size: u64, max: usize, contents: &[(&str, Vec<u8>)]) -> diskscope::domain::dupes::DuplicateReport {
    let read = |path: &str| contents.iter().find(|(p, _)| *p == path).map(|(_, b)| b.clone());
    let mut search = DupeSearch::new(root, min_size, max);
    while let Some(g) = search.pending() {
        let prefixes: Vec<Option<Vec<u8>>> = search.groups[g]
            .iter()
            .map(|f| read(&f.path).map(|b| b[..b.len().min(PARTIAL_HASH_BYTES)].to_vec()))
            .collect();
        search.record_partial(g, &prefixes);
    }
    let full: Vec<Option<Vec<u8>>> = search.targets.iter().map(|f| read(&f.path)).collect();
    search.finish(&full)
}

#[test]
fn hex_encode_gives_two_lower_case_digits_per_byte() {
    assert_eq!(hex_encode(&[0x00, 0xab, 0x0f, 0xff]), "00ab0fff");
    assert_eq!(hex_encode(&[]), "");
}

#[test]
fn digest_hex_is_the_sha256_of_the_bytes() {
    assert_eq!(digest_hex(b"abc"), "ba7816bf8f01cfea414140de5dae2223b00361a396177a9cb410ff61f20015ad");
    assert_eq!(digest_hex(b""), "e3b0c44298fc1c149afbf4c8996fb92427ae41e4649b934ca495991b7852b855");
}

#[test]
fn default_minimum_is_one_mebibyte() {
    assert_eq!(DEFAULT_MIN_SIZE, 1_048_576);
    assert_eq!(PARTIAL_HASH_BYTES, 64 * 1024);
}

#[test]
fn groups_identical_files_by_hash() {
    let root = dir_node("/t", vec![file_node("/t/a.bin", 2048), file_node("/t/b.bin", 2048)]);
    let report = run(&root, 0, 5000, &[("/t/a.bin", vec![0xAB; 2048]), ("/t/b.bin", vec![0xAB; 2048])]);
    assert_eq!(report.groups.len(), 1);
    assert_eq!(report.groups[0].files, vec!["/t/a.bin".to_string(), "/t/b.bin".to_string()]);
    assert_eq!(report.groups[0].size, 2048);
    assert_eq!(report.groups[0].hash, digest_hex(&vec![0xAB; 2048]));
    assert_eq!(report.groups[0].recoverable_bytes(), 2048);
    assert_eq!(report.total_recoverable, 2048);
    assert_eq!(report.total_duplicate_files, 1);
}

#[test]
fn ignores_files_below_min_size() {
    let root = dir_node("/t", vec![file_node("/t/a", 100), file_node("/t/b", 100)]);
    let report = run(&root, 1024, 5000, &[("/t/a", vec![0; 100]), ("/t/b", vec![0; 100])]);
    assert!(report.groups.is_empty());
    assert_eq!(report.total_recoverable, 0);
}

#[test]
fn separates_same_size_files_with_different_content() {
    let root = dir_node("/t", vec![file_node("/t/a", 2048), file_node("/t/b", 2048)]);
    let report = run(&root, 0, 5000, &[("/t/a", vec![0xAA; 2048]), ("/t/b", vec![0xBB; 2048])]);
    assert!(report.groups.is_empty());
}

#[test]
fn groups_three_identical_files() {
    let c = vec![0x42; 4096];
    let root = dir_node("/t", vec![file_node("/t/a", 4096), file_node("/t/b", 4096), file_node("/t/c", 4096)]);
    let report = run(&root, 0, 5000, &[("/t/a", c.clone()), ("/t/b", c.clone()), ("/t/c", c.clone())]);
    assert_eq!(report.groups.len(), 1);
    assert_eq!(report.groups[0].files.len(), 3);
    assert_eq!(report.groups[0].recoverable_bytes(), 4096 * 2);
    assert_eq!(report.total_duplicate_files, 2);
}

#[test]
fn skips_unreadable_files() {
    let root = dir_node("/t", vec![file_node("/t/real", 2048), file_node("/t/phantom", 2048)]);
    let report = run(&root, 0, 5000, &[("/t/real", vec![1; 2048])]);
    assert!(report.groups.is_empty());
}

#[test]
fn returns_empty_report_when_no_duplicates() {
    let root = dir_node("/t", vec![file_node("/t/a", 1024), file_node("/t/b", 2048)]);
    let mut search = DupeSearch::new(&root, 0, 5000);
    assert_eq!(search.groups.len(), 2);
    assert_eq!(search.pending(), None);
    let report = search.finish(&Vec::new());
    assert!(report.groups.is_empty());
    assert_eq!(report.total_recoverable, 0);
    assert_eq!(report.total_duplicate_files, 0);
}

#[test]
fn larger_recoverable_groups_come_first() {
    let small = vec![1u8; 10];
    let big = vec![2u8; 30];
    let root = dir_node(
        "/t",
        vec![
            file_node("/t/s1", 10),
            file_node("/t/s2", 10),
            file_node("/t/s3", 10),
            file_node("/t/b1", 30),
            file_node("/t/b2", 30),
        ],
    );
    let report = run(
        &root,
        0,
        5000,
        &[("/t/s1", small.clone()), ("/t/s2", small.clone()), ("/t/s3", small.clone()), ("/t/b1", big.clone()), ("/t/b2", big.clone())],
    );
    assert_eq!(report.groups.len(), 2);
    assert_eq!(report.groups[0].size, 30);
    assert_eq!(report.groups[1].size, 10);
    assert_eq!(report.total_recoverable, 30 + 20);
    assert_eq!(report.total_duplicate_files, 1 + 2);
}

#[test]
fn candidate_cap_limits_the_buckets_taken() {
    let a = vec![1u8; 10];
    let b = vec![2u8; 20];
    let root = dir_node(
        "/t",
        vec![file_node("/t/a1", 10), file_node("/t/a2", 10), file_node("/t/b1", 20), file_node("/t/b2", 20)],
    );
    let files = [("/t/a1", a.clone()), ("/t/a2", a.clone()), ("/t/b1", b.clone()), ("/t/b2", b.clone())];
    let report = run(&root, 0, 1, &files);
    assert_eq!(report.groups.len(), 1);
    assert_eq!(report.groups[0].size, 10);
    let report = run(&root, 0, 0, &files);
    assert!(report.groups.is_empty());
}

#[test]
fn leading_bytes_split_candidates_before_the_full_pass() {
    let root = dir_node("/t", vec![file_node("/t/a", 3), file_node("/t/b", 3)]);
    let mut search = DupeSearch::new(&root, 0, 5000);
    assert_eq!(search.pending(), Some(0));
    search.record_partial(0, &vec![Some(vec![1, 2, 3]), Some(vec![1, 2, 4])]);
    assert_eq!(search.examined, 0);
    assert!(search.targets.is_empty());
    assert_eq!(search.pending(), None);
}

#[test]
fn only_leaves_take_part() {
    let root = dir_node("/t", vec![dir_node("/t/d", vec![file_node("/t/d/x", 5)]), file_node("/t/y", 5)]);
    let search = DupeSearch::new(&root, 0, 10);
    assert_eq!(search.groups.len(), 1);
    let paths: Vec<&str> = search.groups[0].iter().map(|f| f.path.as_str()).collect();
    assert_eq!(paths, vec!["/t/d/x", "/t/y"]);
}
