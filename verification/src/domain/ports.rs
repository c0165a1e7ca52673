//! The interfaces through which the domain reaches the outside world:
//! scanning a directory tree, the system trash, and a cache of results.
//! Adapters implement them. Each method's answer is one that the adapter
//! declares it may give for the call's arguments, a relation of the
//! adapter's own which the domain does not fix (one that declares none may
//! give any answer); the domain states no behaviour of its own for them
//! beyond the defaults below.
use vstd::prelude::*;
use crate::domain::{DomainError, ScanResult};

verus! {

/// Walks a directory tree and reports it.
pub trait Scanner {
    /// Whether `r` is an answer this scanner may give to `scan(path)`.
    open spec fn scan_answer(&self, path: Seq<char>, r: Result<ScanResult, DomainError>) -> bool {
        true
    }

    /// Whether `r` is an answer this scanner may give to `stat_root(path)`.
    open spec fn stat_answer(&self, path: Seq<char>, r: Result<u64, DomainError>) -> bool {
        true
    }

    /// The full tree under `path`.
    fn scan(&self, path: &str) -> (r: Result<ScanResult, DomainError>)
        ensures
            self.scan_answer(path@, r),
    ;

    /// The last-modified time (Unix seconds) of the directory at `path`.
    fn stat_root(&self, path: &str) -> (r: Result<u64, DomainError>)
        ensures
            self.stat_answer(path@, r),
    ;
}

/// Moves entries to the system trash, with undo of the latest move.
pub trait Trash {
    /// Whether `r` is an answer this trash may give to `move_to_trash(path)`.
    open spec fn move_answer(&self, path: Seq<char>, r: Result<(), DomainError>) -> bool {
        true
    }

    /// Whether `r` is an answer this trash may give to `undo_last()`.
    open spec fn undo_answer(&self, r: Result<(), DomainError>) -> bool {
        true
    }

    /// Moves `path` to the trash.
    fn move_to_trash(&self, path: &str) -> (r: Result<(), DomainError>)
        ensures
            self.move_answer(path@, r),
    ;

    /// Restores the most recently trashed entry.
    fn undo_last(&self) -> (r: Result<(), DomainError>)
        ensures
            self.undo_answer(r),
    ;
}

/// The cached result with both numbers zero, as the default
/// `get_with_metadata` gives it.
pub open spec fn zero_meta(g: Option<ScanResult>) -> Option<(ScanResult, u64, u64)> {
    match g {
        Some(res) => Some((res, 0, 0)),
        None => None,
    }
}

/// A cache of scan results keyed by the scanned path.
pub trait Cache {
    /// Whether `r` is an answer this cache may give to `get(path)`.
    open spec fn get_answer(&self, path: Seq<char>, r: Option<ScanResult>) -> bool {
        true
    }

    /// Whether `r` is an answer this cache may give to `put(path, result)`.
    open spec fn put_answer(&self, path: Seq<char>, result: ScanResult, r: Result<(), DomainError>) -> bool {
        true
    }

    /// Whether `r` is an answer this cache may give to `invalidate(path)`.
    open spec fn invalidate_answer(&self, path: Seq<char>, r: Result<(), DomainError>) -> bool {
        true
    }

    /// Whether `r` is an answer this cache's own `get_with_metadata(path)`
    /// may give.
    open spec fn meta_answer(&self, path: Seq<char>, r: Option<(ScanResult, u64, u64)>) -> bool {
        true
    }

    /// Whether `r` is an answer this cache's own
    /// `put_with_metadata(path, result, mtime, total_bytes)` may give.
    open spec fn put_meta_answer(
        &self,
        path: Seq<char>,
        result: ScanResult,
        mtime: u64,
        total_bytes: u64,
        r: Result<(), DomainError>,
    ) -> bool {
        true
    }

    /// The cached result for `path`, if any.
    fn get(&self, path: &str) -> (r: Option<ScanResult>)
        ensures
            self.get_answer(path@, r),
    ;

    /// Stores `result` for `path`.
    fn put(&self, path: &str, result: &ScanResult) -> (r: Result<(), DomainError>)
        ensures
            self.put_answer(path@, *result, r),
    ;

    /// Drops the entry for `path`.
    fn invalidate(&self, path: &str) -> (r: Result<(), DomainError>)
        ensures
            self.invalidate_answer(path@, r),
    ;

    /// The cached result with the root's `(mtime, total_bytes)`. By default
    /// the result of `get` with both numbers zero.
    fn get_with_metadata(&self, path: &str) -> (r: Option<(ScanResult, u64, u64)>)
        ensures
            self.meta_answer(path@, r) || exists|g: Option<ScanResult>| self.get_answer(path@, g) && r == zero_meta(g),
        default_ensures
            exists|g: Option<ScanResult>| self.get_answer(path@, g) && r == zero_meta(g),
    {
        let g = self.get(path);
        let ghost answered = g;
        let r = match g {
            Some(res) => Some((res, 0, 0)),
            None => None,
        };
        assert(self.get_answer(path@, answered) && r == zero_meta(answered));
        r
    }

    /// Stores `result` with the root's `mtime` and `total_bytes`. By default
    /// the same as `put`, the numbers being dropped.
    fn put_with_metadata(&self, path: &str, result: &ScanResult, mtime: u64, total_bytes: u64) -> (r: Result<
        (),
        DomainError,
    >)
        ensures
            self.put_meta_answer(path@, *result, mtime, total_bytes, r) || self.put_answer(path@, *result, r),
        default_ensures
            self.put_answer(path@, *result, r),
    {
        self.put(path, result)
    }
}

/// What a cache answers to `get_with_metadata(path)`: an answer of its own
/// for it, or, by default, an answer of `get` with both numbers zero.
pub open spec fn meta_reply<C: Cache + ?Sized>(c: &C, path: Seq<char>, r: Option<(ScanResult, u64, u64)>) -> bool {
    c.meta_answer(path, r) || exists|g: Option<ScanResult>| c.get_answer(path, g) && r == zero_meta(g)
}

/// What a cache answers to `put_with_metadata(path, result, mtime,
/// total_bytes)`: an answer of its own for it, or, by default, an answer of
/// `put(path, result)`.
pub open spec fn put_meta_reply<C: Cache + ?Sized>(
    c: &C,
    path: Seq<char>,
    result: ScanResult,
    mtime: u64,
    total_bytes: u64,
    r: Result<(), DomainError>,
) -> bool {
    c.put_meta_answer(path, result, mtime, total_bytes, r) || c.put_answer(path, result, r)
}

} // verus!
