//! Groups of files with identical content, and the report over all groups.
use vstd::prelude::*;

verus! {

/// Files whose content is byte-for-byte identical: the hex SHA-256 digest
/// they share, the size of each, and their paths (at least two).
#[derive(Debug, Clone, PartialEq, Eq)]
pub struct DuplicateGroup {
    pub hash: String,
    pub size: u64,
    pub files: Vec<String>,
}

impl DuplicateGroup {
    /// Bytes freed by keeping one copy and deleting the rest:
    /// `size * (files.len() - 1)`.
    pub fn recoverable_bytes(&self) -> (r: u64)
        requires
            self.files@.len() >= 1,
            self.size * (self.files@.len() - 1) <= u64::MAX,
        ensures
            r == self.size * (self.files@.len() - 1),
    {
        let extra = self.files.len() as u64 - 1;
        self.size * extra
    }
}

/// All duplicate groups of a scan, the bytes they could free and the
/// number of surplus copies.
#[derive(Debug, Clone, PartialEq, Eq)]
pub struct DuplicateReport {
    pub groups: Vec<DuplicateGroup>,
    pub total_recoverable: u64,
    pub total_duplicate_files: usize,
}

} // verus!
