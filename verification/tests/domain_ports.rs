use diskscope::domain::ports::{Cache, Scanner, Trash};
use diskscope::domain::{DomainError, ScanResult};

use diskscope::domain::{FileNode, FileType};
use std::cell::RefCell;
use std::collections::HashMap;

// -- Mock Scanner --

struct MockScanner {
    result: ScanResult,
}

impl MockScanner {
    fn new(result: ScanResult) -> Self {
        Self { result }
    }
}

impl Scanner for MockScanner {
    fn scan(&self, _path: &str) -> Result<ScanResult, DomainError> {
        Ok(self.result.clone())
    }

    fn stat_root(&self, _path: &str) -> Result<u64, DomainError> {
        Ok(self.result.root.modified)
    }
}

#[test]
fn should_return_canned_scanresult_when_scanner_scan_called_via_mock() {
    let root = FileNode {
        path: "/test".into(),
        size: 100,
        modified: 0,
        file_type: FileType::Directory,
        children: vec![],
    };
    let result = ScanResult::from_tree(root, 10);
    let scanner = MockScanner::new(result.clone());

    let scanned = scanner.scan("/test").unwrap();
    assert_eq!(scanned, result);
}

// -- Mock Trash --

struct MockTrash {
    recorded: RefCell<Vec<String>>,
}

impl MockTrash {
    fn new() -> Self {
        Self {
            recorded: RefCell::new(Vec::new()),
        }
    }
}

impl Trash for MockTrash {
    fn move_to_trash(&self, path: &str) -> Result<(), DomainError> {
        self.recorded.borrow_mut().push(path.into());
        Ok(())
    }

    fn undo_last(&self) -> Result<(), DomainError> {
        match self.recorded.borrow_mut().pop() {
            Some(_) => Ok(()),
            None => Err(DomainError::InvalidPath("nothing to undo".into())),
        }
    }
}

#[test]
fn should_record_path_when_trash_move_to_trash_called() {
    let trash = MockTrash::new();
    trash.move_to_trash("/tmp/a.txt").unwrap();
    trash.move_to_trash("/tmp/b.txt").unwrap();
    assert_eq!(*trash.recorded.borrow(), vec!["/tmp/a.txt", "/tmp/b.txt"]);
}

#[test]
fn should_pop_last_recorded_path_when_trash_undo_last_called() {
    let trash = MockTrash::new();
    trash.move_to_trash("/tmp/a.txt").unwrap();
    trash.move_to_trash("/tmp/b.txt").unwrap();
    trash.undo_last().unwrap();
    assert_eq!(*trash.recorded.borrow(), vec!["/tmp/a.txt"]);
}

#[test]
fn should_return_invalid_path_error_when_trash_undo_last_called_on_empty_stack() {
    let trash = MockTrash::new();
    let result = trash.undo_last();
    assert!(matches!(result, Err(DomainError::InvalidPath(_))));
}

// -- Mock Cache --

struct MockCache {
    entries: RefCell<HashMap<String, ScanResult>>,
}

impl MockCache {
    fn new() -> Self {
        Self {
            entries: RefCell::new(HashMap::new()),
        }
    }
}

impl Cache for MockCache {
    fn get(&self, path: &str) -> Option<ScanResult> {
        self.entries.borrow().get(path).cloned()
    }

    fn put(&self, path: &str, result: &ScanResult) -> Result<(), DomainError> {
        self.entries
            .borrow_mut()
            .insert(path.into(), result.clone());
        Ok(())
    }

    fn invalidate(&self, path: &str) -> Result<(), DomainError> {
        self.entries.borrow_mut().remove(path);
        Ok(())
    }
}

fn sample_result(path: &str, size: u64) -> ScanResult {
    let root = FileNode {
        path: path.into(),
        size,
        modified: 42,
        file_type: FileType::Directory,
        children: vec![],
    };
    ScanResult::from_tree(root, 5)
}

#[test]
fn should_return_cached_scanresult_when_cache_get_called_with_known_key() {
    let cache = MockCache::new();
    let result = sample_result("/cached", 512);
    cache.put("/cached", &result).unwrap();
    let cached = cache.get("/cached");
    assert_eq!(cached, Some(result));
}

#[test]
fn should_return_none_when_cache_get_called_with_unknown_key() {
    let cache = MockCache::new();
    assert!(cache.get("/nonexistent").is_none());
}

#[test]
fn should_evict_entry_when_cache_invalidate_called() {
    let cache = MockCache::new();
    let result = sample_result("/stale", 256);
    cache.put("/stale", &result).unwrap();
    assert!(cache.get("/stale").is_some());
    cache.invalidate("/stale").unwrap();
    assert!(cache.get("/stale").is_none());
}

