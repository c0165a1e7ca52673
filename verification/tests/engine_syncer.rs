use std::collections::HashMap;
use std::sync::{Arc, Mutex};

use diskscope::domain::sync::{SyncError, SyncEvent, SyncTransport};
use diskscope::domain::{FileNode, FileType, ScanResult};
use diskscope::engine::sync::merge_event;
use diskscope::engine::syncer::{replay, require_api_key, AblySyncer};
use diskscope::engine::treeops::find_node;

/// A channel shared by the transports of several devices.
#[derive(Default)]
struct InMemoryChannel {
    events: Mutex<HashMap<String, Vec<SyncEvent>>>,
}

struct InMemoryTransport {
    channel: Arc<InMemoryChannel>,
    fail_after: Option<usize>,
}

impl InMemoryTransport {
    fn new(channel: Arc<InMemoryChannel>) -> Self {
        Self { channel, fail_after: None }
    }
}

impl SyncTransport for InMemoryTransport {
    fn publish(&self, root: &str, event: &SyncEvent) -> Result<(), SyncError> {
        let mut events = self.channel.events.lock().unwrap();
        let list = events.entry(root.to_string()).or_default();
        if self.fail_after.is_some_and(|n| list.len() >= n) {
            return Err(SyncError::Transport("channel closed".into()));
        }
        list.push(event.clone());
        Ok(())
    }

    fn history(&self, root: &str) -> Result<Vec<SyncEvent>, SyncError> {
        if self.fail_after == Some(0) {
            return Err(SyncError::Transport("history unavailable".into()));
        }
        Ok(self.channel.events.lock().unwrap().get(root).cloned().unwrap_or_default())
    }
}

fn write(path: &str, size: u64, mtime: u64) -> SyncEvent {
    SyncEvent::Write { path: path.into(), size, mtime, file_type: FileType::Other }
}

fn delete(path: &str, mtime: u64) -> SyncEvent {
    SyncEvent::Delete { path: path.into(), mtime }
}

fn sample_result() -> ScanResult {
    ScanResult::with_children(
        vec![FileNode {
            path: "/tmp/root".into(),
            size: 0,
            modified: 0,
            file_type: FileType::Directory,
            children: vec![FileNode {
                path: "/tmp/root/a.txt".into(),
                size: 100,
                modified: 10,
                file_type: FileType::Document,
                children: vec![],
            }],
        }],
        3,
    )
}

#[test]
fn should_apply_tombstone_across_devices_when_delete_published() {
    let channel = Arc::new(InMemoryChannel::default());
    let mut device_a = AblySyncer::with_transport(InMemoryTransport::new(channel.clone()), "device-a");
    let mut device_b = AblySyncer::with_transport(InMemoryTransport::new(channel.clone()), "device-b");

    device_a.publish_scan("/root", &sample_result()).unwrap();
    // A deletes the entry locally (mtime 10) and publishes the tombstone.
    let mut local = sample_result();
    let mut tree_clone = local.clone();
    merge_event(&mut tree_clone, &delete("/tmp/root/a.txt", 10), "device-a");
    local = tree_clone;
    let event = SyncEvent::Delete { path: "/tmp/root/a.txt".into(), mtime: 10 };
    device_a.transport().publish("/root", &event).expect("publish tombstone");

    let merged = device_b.merge_history("/root").unwrap();
    assert!(find_node(&merged.root, "/tmp/root/a.txt").is_none(), "remote tombstone must remove the entry");
    let _ = local;
}

#[test]
fn publish_streams_a_write_per_entry_in_preorder() {
    let channel = Arc::new(InMemoryChannel::default());
    let mut device = AblySyncer::with_transport(InMemoryTransport::new(channel.clone()), "device-a");
    device.publish_scan("/root", &sample_result()).unwrap();
    let events = channel.events.lock().unwrap().get("/root").cloned().unwrap();
    let paths: Vec<&str> = events.iter().map(|e| e.path()).collect();
    assert_eq!(paths, vec!["", "/tmp/root", "/tmp/root/a.txt"]);
    assert_eq!(events[2], SyncEvent::Write { path: "/tmp/root/a.txt".into(), size: 100, mtime: 10, file_type: FileType::Document });
}

#[test]
fn should_round_trip_scan_result_when_two_ablysyncers_exchange_events() {
    let channel = Arc::new(InMemoryChannel::default());
    let mut device_a = AblySyncer::with_transport(InMemoryTransport::new(channel.clone()), "device-a");
    let mut device_b = AblySyncer::with_transport(InMemoryTransport::new(channel.clone()), "device-b");

    device_a.publish_scan("/root", &sample_result()).unwrap();

    let merged = device_b.merge_history("/root").unwrap();
    assert_eq!(merged.total_size, 100);
    let node = find_node(&merged.root, "/tmp/root/a.txt").expect("entry synced");
    assert_eq!(node.size, 100);

    // B's tree converges with A's publish.
    let a_tree = device_a.merge_history("/root").unwrap();
    assert_eq!(a_tree, merged);
}

#[test]
fn merge_history_on_publishing_device_keeps_its_tree() {
    let channel = Arc::new(InMemoryChannel::default());
    let mut device = AblySyncer::with_transport(InMemoryTransport::new(channel), "device-a");
    device.publish_scan("/root", &sample_result()).unwrap();
    let merged = device.merge_history("/root").unwrap();
    assert_eq!(merged.root, sample_result().root);
    assert_eq!(merged.total_size, 100);
    assert_eq!(merged.file_count, 3);
    assert_eq!(merged.scan_duration_ms, 0);
}

#[test]
fn merge_history_on_other_device_rebuilds_the_tree() {
    let channel = Arc::new(InMemoryChannel::default());
    let mut device_a = AblySyncer::with_transport(InMemoryTransport::new(channel.clone()), "device-a");
    let mut device_b = AblySyncer::with_transport(InMemoryTransport::new(channel), "device-b");
    device_a.publish_scan("/root", &sample_result()).unwrap();
    let merged = device_b.merge_history("/root").unwrap();
    assert_eq!(merged.root.path, "");
    assert_eq!(merged.root.children.len(), 1);
    assert_eq!(merged.root.children[0].path, "/tmp/root");
    assert_eq!(find_node(&merged.root, "/tmp/root/a.txt").unwrap().size, 100);
    assert_eq!(merged.total_size, 100);
    assert_eq!(merged.file_count, 3);
}

#[test]
fn failed_publish_drops_the_root_tree() {
    let channel = Arc::new(InMemoryChannel::default());
    let transport = InMemoryTransport { channel: channel.clone(), fail_after: Some(2) };
    let mut device = AblySyncer::with_transport(transport, "device-a");
    let err = device.publish_scan("/root", &sample_result()).unwrap_err();
    assert!(matches!(err, SyncError::Transport(_)));
    // Two events went out before the failure.
    assert_eq!(channel.events.lock().unwrap().get("/root").unwrap().len(), 2);
    // Nothing kept: a merge of a single event starts from an empty tree.
    let tree = device.merge_event("/root", &write("/x", 1, 1)).unwrap();
    assert_eq!(tree.root.path, "");
    assert_eq!(tree.root.children.len(), 1);
}

#[test]
fn failed_history_changes_nothing() {
    let channel = Arc::new(InMemoryChannel::default());
    let transport = InMemoryTransport { channel, fail_after: Some(0) };
    let mut device = AblySyncer::with_transport(transport, "device-a");
    assert!(matches!(device.merge_history("/root"), Err(SyncError::Transport(_))));
    assert!(device.wins("/root", &write("/x", 1, 1)));
}

#[test]
fn wins_tells_without_keeping() {
    let channel = Arc::new(InMemoryChannel::default());
    let mut device = AblySyncer::with_transport(InMemoryTransport::new(channel), "device-b");
    device.publish_scan("/root", &sample_result()).unwrap();
    assert!(device.wins("/root", &write("/tmp/root/a.txt", 5, 11)));
    assert!(!device.wins("/root", &write("/tmp/root/a.txt", 5, 9)));
    // The kept tree did not change.
    let tree = device.merge_event("/root", &write("/tmp/root/a.txt", 5, 9)).unwrap();
    assert_eq!(find_node(&tree.root, "/tmp/root/a.txt").unwrap().size, 100);
}

#[test]
fn merging_events_one_by_one_matches_replaying_them() {
    let events = vec![write("/tmp/root/b.bin", 7, 3), delete("/tmp/root/a.txt", 20), write("/tmp/root/a.txt", 1, 15)];
    let channel = Arc::new(InMemoryChannel::default());
    let mut device = AblySyncer::with_transport(InMemoryTransport::new(channel), "device-b");
    device.publish_scan("/root", &sample_result()).unwrap();
    let mut last = None;
    for e in &events {
        last = Some(device.merge_event("/root", e).unwrap());
    }
    let mut whole = sample_result();
    replay(&mut whole, &events, "device-b");
    let last = last.unwrap();
    assert_eq!(last.root, whole.root);
    assert_eq!(last.tombstones, whole.tombstones);
    // b.bin (7) joined a.txt's removal: the totals are taken from the tree.
    assert_eq!(last.total_size, 7);
    assert_eq!(last.file_count, 3);
    // The deletion at 20 keeps the write at 15 out.
    assert!(find_node(&whole.root, "/tmp/root/a.txt").is_none());
    assert_eq!(find_node(&whole.root, "/tmp/root/b.bin").unwrap().size, 7);
}

#[test]
fn blank_api_key_is_refused() {
    assert!(matches!(require_api_key(""), Err(SyncError::MissingApiKey)));
    assert!(matches!(require_api_key("   "), Err(SyncError::MissingApiKey)));
    assert!(require_api_key("key:secret").is_ok());
}
