use std::cell::{Cell, RefCell};

use diskscope::domain::ports::{Cache, Scanner, Trash};
use diskscope::domain::{DomainError, FileNode, FileType, ScanResult};
use diskscope::engine::service::{cache_hit, ScanService};

struct FixedScanner {
    mtime: u64,
    scans: Cell<u32>,
}

impl Scanner for FixedScanner {
    fn scan(&self, path: &str) -> Result<ScanResult, DomainError> {
        self.scans.set(self.scans.get() + 1);
        let root = FileNode { path: path.to_string(), size: 7, modified: 0, file_type: FileType::Directory, children: vec![] };
        Ok(ScanResult::from_tree(root, 0))
    }
    fn stat_root(&self, _path: &str) -> Result<u64, DomainError> {
        Ok(self.mtime)
    }
}

struct MemCache(RefCell<Option<(ScanResult, u64, u64)>>);

impl Cache for MemCache {
    fn get(&self, _path: &str) -> Option<ScanResult> {
        self.0.borrow().as_ref().map(|t| t.0.clone())
    }
    fn put(&self, path: &str, result: &ScanResult) -> Result<(), DomainError> {
        self.put_with_metadata(path, result, 0, 0)
    }
    fn invalidate(&self, _path: &str) -> Result<(), DomainError> {
        *self.0.borrow_mut() = None;
        Ok(())
    }
    fn get_with_metadata(&self, _path: &str) -> Option<(ScanResult, u64, u64)> {
        self.0.borrow().clone()
    }
    fn put_with_metadata(&self, _path: &str, result: &ScanResult, mtime: u64, size: u64) -> Result<(), DomainError> {
        *self.0.borrow_mut() = Some((result.clone(), mtime, size));
        Ok(())
    }
}

struct NoTrash;

impl Trash for NoTrash {
    fn move_to_trash(&self, _path: &str) -> Result<(), DomainError> {
        Ok(())
    }
    fn undo_last(&self) -> Result<(), DomainError> {
        Err(DomainError::InvalidPath("nothing to undo".into()))
    }
}

#[test]
fn scan_reuses_the_cache_while_the_root_is_unchanged() {
    let service = ScanService::with_adapters(FixedScanner { mtime: 42, scans: Cell::new(0) }, MemCache(RefCell::new(None)), NoTrash);
    let first = service.scan("/p").unwrap();
    assert_eq!(first.total_size, 7);
    assert_eq!(service.scanner().scans.get(), 1);
    let stored = service.cache().get_with_metadata("/p").unwrap();
    assert_eq!(stored.1, 42);
    assert_eq!(stored.2, 7);
    let second = service.scan("/p").unwrap();
    assert_eq!(second.root, first.root);
    assert_eq!(service.scanner().scans.get(), 1);
    assert!(service.move_to_trash("/p/x").is_ok());
    assert!(service.undo_last().is_err());
}

#[test]
fn cache_hit_requires_the_same_root_time() {
    let root = FileNode { path: "/p".into(), size: 1, modified: 0, file_type: FileType::Directory, children: vec![] };
    let r = ScanResult::from_tree(root, 0);
    assert!(cache_hit(Some((r.clone(), 5, 1)), 5).is_some());
    assert!(cache_hit(Some((r, 5, 1)), 6).is_none());
    assert!(cache_hit(None, 6).is_none());
}
