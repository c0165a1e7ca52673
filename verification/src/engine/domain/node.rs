//! Entries of a scanned tree, with name, path, size, modification time and
//! kind.
use vstd::prelude::*;
use super::FileType;
use crate::paths::{extension_str, path_extension};
use crate::sums::{lemma_sum_prefix_le, lemma_sum_take_all, lemma_sum_take_step, sum_nat};
use crate::text::ascii_lower_seq;

verus! {

/// Kind of file-system entry.
#[derive(Debug, Clone, PartialEq, Eq, Structural)]
pub enum NodeKind {
    File,
    Directory,
    Symlink,
}

/// A point in time as seconds after the Unix epoch (negative before it)
/// and nanoseconds into that second (below one billion). Callers holding
/// a `SystemTime` pass its offset from `UNIX_EPOCH` in this form.
#[derive(Debug, Clone, Copy, PartialEq, Eq, Hash)]
pub struct TimePoint {
    pub secs: i64,
    pub nanos: u32,
}

impl TimePoint {
    /// `self` is strictly earlier than `other`.
    pub open spec fn before(self, other: TimePoint) -> bool {
        self.secs < other.secs || (self.secs == other.secs && self.nanos < other.nanos)
    }

    /// Whether `self` is strictly earlier than `other`.
    pub fn is_before(&self, other: &TimePoint) -> (r: bool)
        ensures
            r == self.before(*other),
    {
        self.secs < other.secs || (self.secs == other.secs && self.nanos < other.nanos)
    }

    /// Whole seconds since the epoch (`Duration::as_secs` of the offset),
    /// zero for a time before the epoch.
    pub open spec fn epoch_secs(self) -> u64 {
        if self.secs >= 0 {
            self.secs as u64
        } else {
            0
        }
    }

    /// Whole seconds since the epoch, zero before it.
    pub fn unix_secs(&self) -> (r: u64)
        ensures
            r == self.epoch_secs(),
    {
        if self.secs >= 0 {
            self.secs as u64
        } else {
            0
        }
    }
}

/// An entry of the tree.
#[derive(Debug)]
pub struct FileNode {
    pub name: String,
    pub path: String,
    pub size: u64,
    pub modified: TimePoint,
    pub kind: NodeKind,
    pub children: Vec<FileNode>,
}

impl FileNode {
    /// The node's own size plus the total sizes of all descendants.
    pub open spec fn tsize(self) -> nat
        decreases self, 1nat,
    {
        (self.size + sum_nat(self.child_tsizes())) as nat
    }

    /// The total sizes of the direct children, in order.
    pub open spec fn child_tsizes(self) -> Seq<nat>
        decreases self, 0nat,
    {
        Seq::new(
            self.children@.len(),
            |i: int|
                if 0 <= i < self.children@.len() {
                    self.children@[i].tsize()
                } else {
                    0
                },
        )
    }

    /// The type by extension, `Other` without one.
    pub open spec fn type_of(self) -> FileType {
        match path_extension(self.path@) {
            Some(e) => super::classify_ext(ascii_lower_seq(e)),
            None => FileType::Other,
        }
    }

    /// Number of levels below the node.
    pub open spec fn height(self) -> nat
        decreases self, 1nat,
    {
        if self.children@.len() == 0 {
            0
        } else {
            1 + self.max_child_height(self.children@.len() as nat)
        }
    }

    /// The greatest height among the first `k` children.
    pub open spec fn max_child_height(self, k: nat) -> nat
        decreases self, 0nat, k,
    {
        if k == 0 || k > self.children@.len() {
            0
        } else {
            let h = self.children@[k - 1].height();
            let m = self.max_child_height((k - 1) as nat);
            if h > m {
                h
            } else {
                m
            }
        }
    }

    /// Every node of the tree has a total size that fits in 64 bits.
    pub open spec fn tsizes_fit(self) -> bool
        decreases self,
    {
        self.tsize() <= u64::MAX && forall|i: int|
            0 <= i < self.children@.len() ==> (#[trigger] self.children@[i]).tsizes_fit()
    }

    /// The path's extension, without the dot.
    pub fn extension(&self) -> (r: Option<&str>)
        ensures
            match r {
                Some(e) => path_extension(self.path@) == Some(e@),
                None => path_extension(self.path@) is None,
            },
    {
        extension_str(self.path.as_str())
    }

    /// The type by extension, `Other` without one.
    pub fn file_type(&self) -> (r: FileType)
        ensures
            r == self.type_of(),
    {
        match self.extension() {
            Some(e) => FileType::from_extension(e),
            None => FileType::Other,
        }
    }

    /// The node's size plus the total sizes of all descendants.
    pub fn total_size(&self) -> (r: u64)
        requires
            self.tsize() <= u64::MAX,
        ensures
            r == self.tsize(),
        decreases self,
    {
        if self.children.is_empty() {
            assert(self.child_tsizes() =~= Seq::<nat>::empty());
            return self.size;
        }
        let ghost ts = self.child_tsizes();
        let mut acc: u64 = 0;
        let mut i: usize = 0;
        while i < self.children.len()
            invariant
                i <= self.children@.len(),
                ts == self.child_tsizes(),
                ts.len() == self.children@.len(),
                self.size + sum_nat(ts) <= u64::MAX,
                acc == sum_nat(ts.take(i as int)),
            decreases self.children@.len() - i,
        {
            proof {
                lemma_sum_take_step(ts, i as int);
                lemma_sum_prefix_le(ts, i + 1);
                assert(ts[i as int] == self.children@[i as int].tsize());
            }
            let c = self.children[i].total_size();
            acc = acc + c;
            i = i + 1;
        }
        proof {
            lemma_sum_take_all(ts);
        }
        self.size + acc
    }
}

proof fn lemma_max_child_height(n: FileNode, k: nat, i: int)
    requires
        0 <= i < k <= n.children@.len(),
    ensures
        n.children@[i].height() <= n.max_child_height(k),
    decreases k,
{
    if i < k - 1 {
        lemma_max_child_height(n, (k - 1) as nat, i);
    }
}

/// A child is at least one level lower than its parent.
pub proof fn lemma_child_height(n: FileNode, i: int)
    requires
        0 <= i < n.children@.len(),
    ensures
        n.children@[i].height() + 1 <= n.height(),
{
    lemma_max_child_height(n, n.children@.len() as nat, i);
}

/// A tree whose total size fits has every total size fitting.
pub proof fn lemma_tsizes_fit(n: FileNode)
    requires
        n.tsize() <= u64::MAX,
    ensures
        n.tsizes_fit(),
    decreases n,
{
    assert forall|i: int| 0 <= i < n.children@.len() implies (#[trigger] n.children@[i]).tsizes_fit() by {
        crate::sums::lemma_sum_elem_le(n.child_tsizes(), i);
        lemma_tsizes_fit(n.children@[i]);
    }
}

} // verus!
