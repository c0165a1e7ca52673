//! A scanner, a cache and a trash composed into one service: scanning
//! reuses the cached result while the root's modification time is the
//! one it was stored with, and stores every fresh result.
use vstd::prelude::*;
use crate::domain::ports::{meta_reply, put_meta_reply, Cache, Scanner, Trash};
use crate::domain::{DomainError, ScanResult};

verus! {

/// `std::time::Instant`, carried through unchanged.
#[verifier::external_type_specification]
#[verifier::external_body]
pub struct ExInstant(std::time::Instant);

/// `Instant::now`. Nothing is stated of the value: it is the time of the
/// call.
#[verifier::external_body]
fn clock_now() -> std::time::Instant {
    std::time::Instant::now()
}

/// Whole milliseconds since `start` (`Instant::elapsed`, as `u64`).
/// Nothing is stated of the value: it depends on the clock.
#[verifier::external_body]
fn millis_since(start: &std::time::Instant) -> u64 {
    start.elapsed().as_millis() as u64
}

/// The cached result to reuse: the cached one when its stored root time
/// equals the root's current time `root_mtime`.
pub open spec fn hit(cached: Option<(ScanResult, u64, u64)>, root_mtime: u64) -> Option<ScanResult> {
    match cached {
        Some(c) => if c.1 == root_mtime {
            Some(c.0)
        } else {
            None
        },
        None => None,
    }
}

/// A fresh result with its scan duration set to `elapsed_ms`.
pub open spec fn stamped_v(result: ScanResult, elapsed_ms: u64) -> ScanResult {
    ScanResult { scan_duration_ms: elapsed_ms, ..result }
}

/// What scanning `path` gives once the root's time `m` and the cache's
/// answer `cached` are known: a cached result stored with time `m` is
/// given back; otherwise the scanner's error, or the scanner's tree
/// stamped with some duration, stored with `(path, stamped, m, root size)`
/// and given back unless the store fails, whose error is then given.
pub open spec fn after_lookup<S: Scanner, C: Cache>(
    s: &S,
    c: &C,
    path: Seq<char>,
    m: u64,
    cached: Option<(ScanResult, u64, u64)>,
    r: Result<ScanResult, DomainError>,
) -> bool {
    match hit(cached, m) {
        Some(h) => r == Ok::<ScanResult, DomainError>(h),
        None => {
            ||| exists|e: DomainError|
                #[trigger] s.scan_answer(path, Err(e)) && r == Err::<ScanResult, DomainError>(e)
            ||| exists|f: ScanResult, ms: u64, pr: Result<(), DomainError>|
                #[trigger] s.scan_answer(path, Ok(f)) && #[trigger] put_meta_reply(
                    c,
                    path,
                    stamped_v(f, ms),
                    m,
                    f.root.size,
                    pr,
                ) && r == match pr {
                    Ok(_) => Ok::<ScanResult, DomainError>(stamped_v(f, ms)),
                    Err(e) => Err::<ScanResult, DomainError>(e),
                }
        },
    }
}

/// What scanning `path` with scanner `s` and cache `c` gives: the error
/// of reading the root's time, or, with the root's time `m` and the
/// cache's answer for `path`, what [`after_lookup`] says.
pub open spec fn scan_outcome<S: Scanner, C: Cache>(s: &S, c: &C, path: Seq<char>, r: Result<ScanResult, DomainError>) -> bool {
    ||| exists|e: DomainError| #[trigger] s.stat_answer(path, Err(e)) && r == Err::<ScanResult, DomainError>(e)
    ||| exists|m: u64, cached: Option<(ScanResult, u64, u64)>|
        #[trigger] s.stat_answer(path, Ok(m)) && #[trigger] meta_reply(c, path, cached) && after_lookup(
            s,
            c,
            path,
            m,
            cached,
            r,
        )
}

/// The cached result to reuse (see [`hit`]).
pub fn cache_hit(cached: Option<(ScanResult, u64, u64)>, root_mtime: u64) -> (r: Option<ScanResult>)
    ensures
        r == hit(cached, root_mtime),
        match cached {
            Some(c) => if c.1 == root_mtime {
                r == Some(c.0)
            } else {
                r is None
            },
            None => r is None,
        },
{
    match cached {
        Some((res, mtime, _)) => if mtime == root_mtime {
            Some(res)
        } else {
            None
        },
        None => None,
    }
}

/// A fresh result stamped with the time its walk took.
pub fn stamped(result: ScanResult, elapsed_ms: u64) -> (r: ScanResult)
    ensures
        r == stamped_v(result, elapsed_ms),
        r.scan_duration_ms == elapsed_ms,
        r.root == result.root,
        r.total_size == result.total_size,
        r.file_count == result.file_count,
        r.skipped == result.skipped,
        r.tombstones == result.tombstones,
{
    let mut r = result;
    r.scan_duration_ms = elapsed_ms;
    r
}

/// A scanner, a cache and a trash behind one interface.
pub struct ScanService<S, C, T> {
    scanner: S,
    cache: C,
    trash: T,
}

impl<S, C, T> ScanService<S, C, T> {
    /// The scanner held.
    pub closed spec fn scanner_v(&self) -> S {
        self.scanner
    }

    /// The cache held.
    pub closed spec fn cache_v(&self) -> C {
        self.cache
    }

    /// The trash held.
    pub closed spec fn trash_v(&self) -> T {
        self.trash
    }
}

impl<S: Scanner, C: Cache, T: Trash> ScanService<S, C, T> {
    /// A service over the given adapters.
    pub fn with_adapters(scanner: S, cache: C, trash: T) -> (r: ScanService<S, C, T>)
        ensures
            r.scanner_v() == scanner,
            r.cache_v() == cache,
            r.trash_v() == trash,
    {
        ScanService { scanner, cache, trash }
    }

    /// The scanner.
    pub fn scanner(&self) -> (r: &S)
        ensures
            *r == self.scanner_v(),
    {
        &self.scanner
    }

    /// The cache.
    pub fn cache(&self) -> (r: &C)
        ensures
            *r == self.cache_v(),
    {
        &self.cache
    }

    /// The trash.
    pub fn trash(&self) -> (r: &T)
        ensures
            *r == self.trash_v(),
    {
        &self.trash
    }

    /// Scans `path`: the root's modification time is read first; a
    /// cached result stored with that time is reused (see [`cache_hit`]);
    /// otherwise the tree is walked, the result stamped with the walk's
    /// duration (see [`stamped`]) and stored with the root's time and
    /// size before it is returned. An error of an adapter is returned as
    /// it came.
    pub fn scan(&self, path: &str) -> (r: Result<ScanResult, DomainError>)
        ensures
            scan_outcome(&self.scanner_v(), &self.cache_v(), path@, r),
    {
        let start = clock_now();
        let root_mtime = match self.scanner.stat_root(path) {
            Ok(m) => m,
            Err(e) => {
                assert(self.scanner.stat_answer(path@, Err(e)));
                return Err(e);
            },
        };
        let cached = self.cache.get_with_metadata(path);
        let ghost answered = cached;
        assert(meta_reply(&self.cache, path@, answered));
        if let Some(h) = cache_hit(cached, root_mtime) {
            assert(after_lookup(&self.scanner, &self.cache, path@, root_mtime, answered, Ok::<ScanResult, DomainError>(h)));
            return Ok(h);
        }
        let fresh = match self.scanner.scan(path) {
            Ok(f) => f,
            Err(e) => {
                assert(self.scanner.scan_answer(path@, Err(e)));
                assert(after_lookup(&self.scanner, &self.cache, path@, root_mtime, answered, Err::<ScanResult, DomainError>(e)));
                return Err(e);
            },
        };
        let ghost f = fresh;
        let ms = millis_since(&start);
        let result = stamped(fresh, ms);
        let root_bytes = result.root.size;
        let stored = self.cache.put_with_metadata(path, &result, root_mtime, root_bytes);
        let ghost pr = stored;
        assert(self.scanner.scan_answer(path@, Ok(f)));
        assert(put_meta_reply(&self.cache, path@, stamped_v(f, ms), root_mtime, f.root.size, pr));
        match stored {
            Ok(()) => {
                assert(after_lookup(&self.scanner, &self.cache, path@, root_mtime, answered, Ok::<ScanResult, DomainError>(result)));
                Ok(result)
            },
            Err(e) => {
                assert(after_lookup(&self.scanner, &self.cache, path@, root_mtime, answered, Err::<ScanResult, DomainError>(e)));
                Err(e)
            },
        }
    }

    /// Moves `path` to the trash: the trash's answer for `path`, as it came.
    pub fn move_to_trash(&self, path: &str) -> (r: Result<(), DomainError>)
        ensures
            self.trash_v().move_answer(path@, r),
    {
        self.trash.move_to_trash(path)
    }

    /// Undoes the most recent move to the trash: the trash's answer, as it
    /// came.
    pub fn undo_last(&self) -> (r: Result<(), DomainError>)
        ensures
            self.trash_v().undo_answer(r),
    {
        self.trash.undo_last()
    }
}

} // verus!
