use diskscope::engine::tree::{FileEntry, NodeType};
use diskscope::engine::walk_cache::{decode_cached_entry, encode_cached_entry, CachedEntry, STORED_LEN};

fn entry(size: u64, modified: u64, scan_time: u64) -> CachedEntry {
    CachedEntry {
        entry: FileEntry {
            path: "/data/a.txt".into(),
            name: "a.txt".into(),
            size,
            modified,
            node_type: NodeType::Dir,
            depth: 3,
        },
        scan_time,
    }
}

#[test]
fn stored_value_is_three_little_endian_words() {
    let bytes = encode_cached_entry(&entry(0x0102_0304_0506_0708, 1, 0xff00));
    assert_eq!(bytes.len(), STORED_LEN);
    assert_eq!(&bytes[0..8], &[8, 7, 6, 5, 4, 3, 2, 1]);
    assert_eq!(&bytes[8..16], &[1, 0, 0, 0, 0, 0, 0, 0]);
    assert_eq!(&bytes[16..24], &[0, 0xff, 0, 0, 0, 0, 0, 0]);
}

#[test]
fn stored_entry_reads_back() {
    let bytes = encode_cached_entry(&entry(4096, 1_700_000_000, 1_700_000_123));
    let back = decode_cached_entry("/data/a.txt", &bytes).unwrap();
    assert_eq!(back.entry.size, 4096);
    assert_eq!(back.entry.modified, 1_700_000_000);
    assert_eq!(back.scan_time, 1_700_000_123);
    assert_eq!(back.entry.path, "/data/a.txt");
    assert_eq!(back.entry.name, "");
    assert_eq!(back.entry.node_type, NodeType::File);
    assert_eq!(back.entry.depth, 0);
}

#[test]
fn short_value_holds_no_entry() {
    assert!(decode_cached_entry("/x", &[0u8; 15]).is_none());
    assert!(decode_cached_entry("/x", &[]).is_none());
}

#[test]
fn value_without_scan_time_reads_as_time_zero() {
    let bytes = encode_cached_entry(&entry(u64::MAX, 7, 99));
    let back = decode_cached_entry("/x", &bytes[..16]).unwrap();
    assert_eq!(back.entry.size, u64::MAX);
    assert_eq!(back.entry.modified, 7);
    assert_eq!(back.scan_time, 0);
}
