//! What the result cache stores for a scan root, and the conversions
//! between it and the domain: a tree whose kinds are kept as one byte
//! each, with the root's modification time and byte count.
use vstd::prelude::*;
use crate::domain::{FileNode, FileNodeV, FileType, ScanResult};

verus! {

/// The byte a kind is stored as.
pub open spec fn type_byte(ft: FileType) -> u8 {
    match ft {
        FileType::Audio => 0,
        FileType::Video => 1,
        FileType::Image => 2,
        FileType::Document => 3,
        FileType::Code => 4,
        FileType::Archive => 5,
        FileType::Directory => 6,
        FileType::Other => 7,
    }
}

/// The kind a stored byte stands for; bytes past the known ones read as
/// `Other`.
pub open spec fn byte_type(b: u8) -> FileType {
    if b == 0 {
        FileType::Audio
    } else if b == 1 {
        FileType::Video
    } else if b == 2 {
        FileType::Image
    } else if b == 3 {
        FileType::Document
    } else if b == 4 {
        FileType::Code
    } else if b == 5 {
        FileType::Archive
    } else if b == 6 {
        FileType::Directory
    } else {
        FileType::Other
    }
}

/// The byte a kind is stored as.
pub fn file_type_to_byte(ft: FileType) -> (b: u8)
    ensures
        b == type_byte(ft),
{
    match ft {
        FileType::Audio => 0,
        FileType::Video => 1,
        FileType::Image => 2,
        FileType::Document => 3,
        FileType::Code => 4,
        FileType::Archive => 5,
        FileType::Directory => 6,
        FileType::Other => 7,
    }
}

/// The kind a stored byte stands for.
pub fn byte_to_file_type(b: u8) -> (ft: FileType)
    ensures
        ft == byte_type(b),
{
    match b {
        0 => FileType::Audio,
        1 => FileType::Video,
        2 => FileType::Image,
        3 => FileType::Document,
        4 => FileType::Code,
        5 => FileType::Archive,
        6 => FileType::Directory,
        _ => FileType::Other,
    }
}

/// Reading back the byte a kind was stored as gives the kind.
pub proof fn law_type_byte_round_trip(ft: FileType)
    ensures
        byte_type(type_byte(ft)) == ft,
{
}

/// A stored tree node.
#[derive(Debug)]
pub struct CachedNode {
    pub path: String,
    pub size: u64,
    pub modified: u64,
    pub file_type: u8,
    pub children: Vec<CachedNode>,
}

impl CachedNode {
    /// The tree this stored node reads back as.
    pub open spec fn dv(self) -> FileNodeV
        decreases self,
    {
        FileNodeV {
            path: self.path@,
            size: self.size,
            modified: self.modified,
            file_type: byte_type(self.file_type),
            children: Seq::new(
                self.children@.len(),
                |i: int|
                    if 0 <= i < self.children@.len() {
                        self.children@[i].dv()
                    } else {
                        arbitrary()
                    },
            ),
        }
    }

    /// The stored form of a tree: the same fields, kinds as bytes.
    pub fn from_domain(node: &FileNode) -> (r: CachedNode)
        ensures
            r.dv() == node@,
        decreases node,
    {
        let mut children: Vec<CachedNode> = Vec::new();
        let mut i: usize = 0;
        while i < node.children.len()
            invariant
                i <= node.children@.len(),
                children@.len() == i,
                forall|j: int| 0 <= j < i ==> (#[trigger] children@[j]).dv() == node.children@[j]@,
            decreases node.children@.len() - i,
        {
            children.push(CachedNode::from_domain(&node.children[i]));
            i = i + 1;
        }
        let r = CachedNode {
            path: node.path.clone(),
            size: node.size,
            modified: node.modified,
            file_type: file_type_to_byte(node.file_type),
            children,
        };
        assert(r.dv().children =~= node@.children);
        r
    }

    /// The tree a stored node reads back as.
    pub fn to_domain(&self) -> (r: FileNode)
        ensures
            r@ == self.dv(),
        decreases self,
    {
        let mut children: Vec<FileNode> = Vec::new();
        let mut i: usize = 0;
        while i < self.children.len()
            invariant
                i <= self.children@.len(),
                children@.len() == i,
                forall|j: int| 0 <= j < i ==> (#[trigger] children@[j])@ == self.children@[j].dv(),
            decreases self.children@.len() - i,
        {
            children.push(self.children[i].to_domain());
            i = i + 1;
        }
        let r = FileNode {
            path: self.path.clone(),
            size: self.size,
            modified: self.modified,
            file_type: byte_to_file_type(self.file_type),
            children,
        };
        assert(r@.children =~= self.dv().children);
        r
    }

    /// The tree a stored node reads back as, consuming it.
    pub fn into_domain(self) -> (r: FileNode)
        ensures
            r@ == self.dv(),
    {
        self.to_domain()
    }
}

/// Storing a tree and reading it back gives the same tree.
pub proof fn law_cached_tree_round_trip(node: FileNode, stored: CachedNode, back: FileNode)
    requires
        stored.dv() == node@,
        back@ == stored.dv(),
    ensures
        back@ == node@,
{
}

/// What the cache stores for a scan root: the root's modification time
/// and byte count, and the tree.
#[derive(Debug)]
pub struct CachedScanResult {
    pub mtime: u64,
    pub size: u64,
    pub root: CachedNode,
}

impl CachedScanResult {
    /// The stored form of a result with the root's `mtime` and `size`.
    pub fn new(result: &ScanResult, mtime: u64, size: u64) -> (r: CachedScanResult)
        ensures
            r.mtime == mtime,
            r.size == size,
            r.root.dv() == result.root@,
    {
        CachedScanResult { mtime, size, root: CachedNode::from_domain(&result.root) }
    }

    /// The result read back, with the stored time and byte count: the
    /// tree, its totals taken again from the root, no duration and no
    /// skipped paths.
    pub fn into_result(self) -> (r: (ScanResult, u64, u64))
        requires
            self.root.dv().count() <= u64::MAX,
        ensures
            r.0.root@ == self.root.dv(),
            r.0.total_size == self.root.size,
            r.0.file_count == self.root.dv().count(),
            r.0.scan_duration_ms == 0,
            r.0.skipped@.len() == 0,
            r.1 == self.mtime,
            r.2 == self.size,
    {
        let mtime = self.mtime;
        let size = self.size;
        let ghost d = self.root.dv();
        let root = self.root.into_domain();
        assert(root.count() == d.count());
        (ScanResult::from_tree(root, 0), mtime, size)
    }
}

} // verus!
