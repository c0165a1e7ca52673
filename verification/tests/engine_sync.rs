use diskscope::domain::sync::{SyncError, SyncEvent};
use diskscope::domain::{DomainError, FileNode, FileType, ScanResult};
use diskscope::engine::sync::{file_type_to_byte, from_wire, merge_event, to_wire, WireEvent};
use diskscope::engine::treeops::find_node;


fn write(path: &str, size: u64, mtime: u64) -> SyncEvent {
    SyncEvent::Write {
        path: path.into(),
        size,
        mtime,
        file_type: FileType::Other,
    }
}

fn delete(path: &str, mtime: u64) -> SyncEvent {
    SyncEvent::Delete {
        path: path.into(),
        mtime,
    }
}

fn sample_result() -> ScanResult {
    ScanResult::with_children(
        vec![FileNode {
            path: "/tmp/root".into(),
            size: 0,
            modified: 0,
            file_type: FileType::Directory,
            children: vec![FileNode {
                path: "/tmp/root/a.txt".into(),
                size: 100,
                modified: 10,
                file_type: FileType::Document,
                children: vec![],
            }],
        }],
        3,
    )
}

#[test]
fn should_serialize_write_event_when_publisher_called() {
    let event = SyncEvent::Write {
        path: "/x/y.txt".into(),
        size: 42,
        mtime: 100,
        file_type: FileType::Code,
    };
    let wire = to_wire(&event);
    assert_eq!(wire.kind, "write");
    assert_eq!(wire.path, "/x/y.txt");
    assert_eq!(wire.size, 42);
    assert_eq!(wire.mtime, 100);
    assert_eq!(wire.file_type, file_type_to_byte(FileType::Code));
    let round = from_wire(&wire).unwrap();
    assert_eq!(round, event);
}

#[test]
fn should_serialize_delete_event_when_publisher_called() {
    let event = SyncEvent::Delete {
        path: "/x/old.txt".into(),
        mtime: 99,
    };
    let wire = to_wire(&event);
    assert_eq!(wire.kind, "delete");
    let round = from_wire(&wire).unwrap();
    assert_eq!(round, event);
}

#[test]
fn should_reject_unknown_event_kind_when_deserializing() {
    let wire = WireEvent {
        kind: "touch".into(),
        path: "/x".into(),
        size: 0,
        mtime: 0,
        file_type: 0,
    };
    assert!(matches!(
        from_wire(&wire),
        Err(SyncError::Serialize(_))
    ));
}

#[test]
fn should_pick_newer_mtime_when_local_and_remote_event_conflict() {
    let mut tree = sample_result();
    // Remote write with a newer mtime than the local 100-byte entry.
    let remote = write("/tmp/root/a.txt", 250, 50);
    let changed = merge_event(&mut tree, &remote, "remote-device");
    assert!(changed);
    let node = find_node(&mut tree.root, "/tmp/root/a.txt").expect("entry exists");
    assert_eq!(node.size, 250);
    assert_eq!(node.modified, 50);
}

#[test]
fn should_keep_local_write_when_local_mtime_newer_than_remote_event() {
    let mut tree = sample_result();
    // Remote write with an OLDER mtime than the local entry.
    let remote = write("/tmp/root/a.txt", 250, 1);
    let changed = merge_event(&mut tree, &remote, "remote-device");
    assert!(!changed);
    let node = find_node(&mut tree.root, "/tmp/root/a.txt").expect("entry exists");
    assert_eq!(node.size, 100);
}

#[test]
fn should_keep_deletion_when_local_mtime_newer_than_remote_write() {
    let mut tree = sample_result();
    // Local mtime 10; remote write with mtime 5 must NOT resurrect it.
    let tombstone = delete("/tmp/root/a.txt", 10);
    let changed = merge_event(&mut tree, &tombstone, "remote-device");
    assert!(changed);
    assert!(find_node(&mut tree.root, "/tmp/root/a.txt").is_none());
    // Now a stale remote write arrives; the tombstone (mtime 10) wins.
    let stale_write = write("/tmp/root/a.txt", 250, 5);
    let changed = merge_event(&mut tree, &stale_write, "remote-device");
    assert!(!changed);
    assert!(
        find_node(&mut tree.root, "/tmp/root/a.txt").is_none(),
        "tombstone must not be resurrected"
    );
}

#[test]
fn should_apply_write_when_local_entry_newer_than_remote_tombstone() {
    let mut tree = sample_result();
    // Local entry mtime 10; remote tombstone with mtime 5 loses.
    let tombstone = delete("/tmp/root/a.txt", 5);
    let changed = merge_event(&mut tree, &tombstone, "remote-device");
    assert!(!changed);
    assert!(find_node(&mut tree.root, "/tmp/root/a.txt").is_some());
}

#[test]
fn should_break_mtime_ties_by_device_id_when_two_events_share_mtime() {
    let mut tree = sample_result();
    // Remote write with the SAME mtime (10) as the local entry but a
    // lexicographically larger device id wins the tie.
    let remote = write("/tmp/root/a.txt", 250, 10);
    let changed = merge_event(&mut tree, &remote, "zz-device");
    assert!(changed);
    let node = find_node(&mut tree.root, "/tmp/root/a.txt").expect("entry exists");
    assert_eq!(node.size, 250);
}

#[test]
fn should_keep_local_when_tie_lost_by_device_id() {
    let mut tree = sample_result();
    // Remote device sorts BELOW the local device at equal mtime.
    let remote = write("/tmp/root/a.txt", 250, 10);
    let changed = merge_event(&mut tree, &remote, "aa-device");
    assert!(!changed);
    let node = find_node(&mut tree.root, "/tmp/root/a.txt").expect("entry exists");
    assert_eq!(node.size, 100);
}

#[test]
fn should_apply_new_path_when_event_path_unknown_to_tree() {
    let mut tree = sample_result();
    let remote = write("/tmp/root/new.bin", 7, 5);
    let changed = merge_event(&mut tree, &remote, "remote-device");
    assert!(changed);
    assert_eq!(find_node(&mut tree.root, "/tmp/root/new.bin").unwrap().size, 7);
}

#[test]
fn should_map_missing_api_key_to_domain_error_when_converted() {
    let err: DomainError = SyncError::MissingApiKey.into();
    assert!(matches!(err, DomainError::InvalidPath(_)));
}


#[test]
fn unknown_kind_message_quotes_the_kind() {
    let wire = WireEvent { kind: "to\"uch".into(), path: "/x".into(), size: 0, mtime: 0, file_type: 0 };
    match from_wire(&wire) {
        Err(SyncError::Serialize(m)) => assert_eq!(m, "unknown event kind \"to\\\"uch\""),
        other => panic!("unexpected {other:?}"),
    }
}

#[test]
fn unknown_type_byte_is_refused_with_its_value() {
    let wire = WireEvent { kind: "write".into(), path: "/x".into(), size: 1, mtime: 2, file_type: 9 };
    match from_wire(&wire) {
        Err(SyncError::Serialize(m)) => assert_eq!(m, "unknown file type byte 9"),
        other => panic!("unexpected {other:?}"),
    }
}
