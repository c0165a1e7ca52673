use diskscope::engine::domain::filter::{Filter, FilterSet};
use diskscope::engine::domain::node::{FileNode, NodeKind, TimePoint};
use diskscope::engine::domain::FileType;
use std::time::{Duration, SystemTime};

fn time_point(t: SystemTime) -> TimePoint {
    match t.duration_since(SystemTime::UNIX_EPOCH) {
        Ok(d) => TimePoint { secs: d.as_secs() as i64, nanos: d.subsec_nanos() },
        Err(e) => {
            let d = e.duration();
            if d.subsec_nanos() == 0 {
                TimePoint { secs: -(d.as_secs() as i64), nanos: 0 }
            } else {
                TimePoint { secs: -(d.as_secs() as i64) - 1, nanos: 1_000_000_000 - d.subsec_nanos() }
            }
        }
    }
}

fn file_node(name: &str, size: u64) -> FileNode {
    FileNode {
        name: name.to_string(),
        path: format!("/root/{name}"),
        size,
        modified: time_point(SystemTime::now()),
        kind: NodeKind::File,
        children: Vec::new(),
    }
}

#[test]
fn should_filter_by_min_size_when_node_size_below_threshold() {
    let small = file_node("tiny.txt", 100);
    let large = file_node("big.bin", 1_000_000);
    let f = Filter::MinSize(500);

    assert!(!f.apply(&small, 0));
    assert!(f.apply(&large, 0));
}

#[test]
fn should_filter_by_file_type_when_node_is_audio_file() {
    let audio = file_node("song.mp3", 5_000);
    let text = file_node("readme.txt", 500);
    let f = Filter::FileType(FileType::Audio);

    assert!(f.apply(&audio, 0));
    assert!(!f.apply(&text, 0));
}

#[test]
fn should_filter_by_date_range_when_node_modified_outside_range() {
    let old = FileNode {
        name: "old.log".to_string(),
        path: "/root/old.log".to_string(),
        size: 100,
        modified: time_point(SystemTime::UNIX_EPOCH + Duration::from_secs(1_000_000)),
        kind: NodeKind::File,
        children: Vec::new(),
    };
    let cutoff = time_point(SystemTime::UNIX_EPOCH + Duration::from_secs(2_000_000));

    let before = Filter::ModifiedBefore(cutoff);
    let after = Filter::ModifiedAfter(cutoff);

    assert!(before.apply(&old, 0));
    assert!(!after.apply(&old, 0));
}

#[test]
fn should_filter_by_depth_when_node_exceeds_max_depth() {
    let node = file_node("deep.txt", 100);
    let f = Filter::MaxDepth(3);

    assert!(f.apply(&node, 2));
    assert!(f.apply(&node, 3));
    assert!(!f.apply(&node, 4));
}

#[test]
fn should_combine_filters_when_filter_set_contains_multiple_criteria() {
    let node = file_node("archive.tar.gz", 5_000_000);
    let mut set = FilterSet::new();
    set.push(Filter::MinSize(1_000_000));
    set.push(Filter::FileType(FileType::Archive));

    assert!(set.apply(&node, 0));

    let small_text = file_node("notes.txt", 50);
    assert!(!set.apply(&small_text, 0));
}
