//! Criteria over tree entries, and their conjunction.
use vstd::prelude::*;
use super::node::{FileNode, TimePoint};
use super::FileType;
use crate::paths::path_extension;
use crate::text::{ascii_lower, ascii_lower_seq, ascii_lowercase_chars, chars_equal, chars_of, contains_chars, contains_seq};

verus! {

/// One criterion over an entry at some depth of the tree.
#[derive(Debug, Clone)]
pub enum Filter {
    /// Total size at least this.
    MinSize(u64),
    /// Total size at most this.
    MaxSize(u64),
    FileType(FileType),
    /// Extension equal to this, ignoring ASCII case.
    Extension(String),
    ModifiedBefore(TimePoint),
    ModifiedAfter(TimePoint),
    /// Name containing this text.
    NamePattern(String),
    /// Depth at most this.
    MaxDepth(usize),
}

impl Filter {
    /// Whether `node`, at `depth`, meets this criterion.
    pub open spec fn holds(&self, node: FileNode, depth: usize) -> bool {
        match self {
            Filter::MinSize(min) => node.tsize() >= *min,
            Filter::MaxSize(max) => node.tsize() <= *max,
            Filter::FileType(ft) => node.type_of() == *ft,
            Filter::Extension(ext) => match path_extension(node.path@) {
                Some(e) => ascii_lower_seq(e) == ascii_lower_seq(ext@),
                None => false,
            },
            Filter::ModifiedBefore(t) => node.modified.before(*t),
            Filter::ModifiedAfter(t) => t.before(node.modified),
            Filter::NamePattern(p) => contains_seq(node.name@, p@),
            Filter::MaxDepth(max) => depth <= *max,
        }
    }

    /// Whether `node`, at `depth`, meets this criterion.
    pub fn apply(&self, node: &FileNode, depth: usize) -> (r: bool)
        requires
            node.tsize() <= u64::MAX,
        ensures
            r == self.holds(*node, depth),
    {
        match self {
            Filter::MinSize(min) => node.total_size() >= *min,
            Filter::MaxSize(max) => node.total_size() <= *max,
            Filter::FileType(ft) => node.file_type() == *ft,
            Filter::Extension(ext) => match node.extension() {
                Some(e) => {
                    let a = ascii_lowercase_chars(e);
                    let b = ascii_lowercase_chars(ext.as_str());
                    chars_equal(&a, &b)
                },
                None => false,
            },
            Filter::ModifiedBefore(t) => node.modified.is_before(t),
            Filter::ModifiedAfter(t) => t.is_before(&node.modified),
            Filter::NamePattern(pat) => {
                let h = chars_of(node.name.as_str());
                let n = chars_of(pat.as_str());
                contains_chars(&h, &n)
            },
            Filter::MaxDepth(max) => depth <= *max,
        }
    }
}

/// `a` and `b` are the same text when ASCII letters are compared without
/// regard to case: the same length, and at each position the same
/// character, or the same ASCII letter in the other case.
pub open spec fn eq_ignore_ascii_case(a: Seq<char>, b: Seq<char>) -> bool {
    &&& a.len() == b.len()
    &&& forall|i: int|
        0 <= i < a.len() ==> {
            ||| a[i] == b[i]
            ||| 'A' <= a[i] <= 'Z' && (b[i] as u32) == (a[i] as u32) + 32
            ||| 'a' <= a[i] <= 'z' && (a[i] as u32) == (b[i] as u32) + 32
        }
}

/// Two texts lower-case to the same text exactly when they are equal
/// ignoring ASCII case.
pub proof fn lemma_lower_eq_iff(a: Seq<char>, b: Seq<char>)
    ensures
        ascii_lower_seq(a) == ascii_lower_seq(b) <==> eq_ignore_ascii_case(a, b),
{
    if ascii_lower_seq(a) == ascii_lower_seq(b) {
        assert(a.len() == ascii_lower_seq(a).len());
        assert forall|i: int| 0 <= i < a.len() implies {
            ||| a[i] == b[i]
            ||| 'A' <= a[i] <= 'Z' && (b[i] as u32) == (a[i] as u32) + 32
            ||| 'a' <= a[i] <= 'z' && (a[i] as u32) == (b[i] as u32) + 32
        } by {
            assert(ascii_lower_seq(a)[i] == ascii_lower_seq(b)[i]);
        }
    }
    if eq_ignore_ascii_case(a, b) {
        assert forall|i: int| 0 <= i < a.len() implies ascii_lower_seq(a)[i] == ascii_lower_seq(b)[i] by {
            assert(ascii_lower_seq(a)[i] == ascii_lower(a[i]));
            assert(ascii_lower_seq(b)[i] == ascii_lower(b[i]));
        }
        assert(ascii_lower_seq(a) =~= ascii_lower_seq(b));
    }
}

/// The extension criterion holds exactly for an entry whose path has an
/// extension equal to the given one when ASCII letters are compared
/// without regard to case (so `IMG.JPG` meets `jpg`).
pub proof fn law_extension_ignores_ascii_case(ext: String, node: FileNode, depth: usize)
    ensures
        Filter::Extension(ext).holds(node, depth) <==> (path_extension(node.path@) matches Some(e)
            && eq_ignore_ascii_case(e, ext@)),
{
    match path_extension(node.path@) {
        Some(e) => lemma_lower_eq_iff(e, ext@),
        None => {},
    }
}

/// Criteria that must all hold.
#[derive(Debug, Clone)]
pub struct FilterSet(pub Vec<Filter>);

impl FilterSet {
    /// Whether `node`, at `depth`, meets every criterion.
    pub open spec fn all_hold(&self, node: FileNode, depth: usize) -> bool {
        forall|i: int| 0 <= i < self.0@.len() ==> (#[trigger] self.0@[i]).holds(node, depth)
    }

    /// The empty set, which every entry passes.
    pub fn new() -> (r: FilterSet)
        ensures
            r.0@.len() == 0,
    {
        FilterSet(Vec::new())
    }

    /// Adds a criterion.
    pub fn push(&mut self, filter: Filter)
        ensures
            final(self).0@ == old(self).0@.push(filter),
    {
        self.0.push(filter);
    }

    /// Whether the set has no criterion.
    pub fn is_empty(&self) -> (r: bool)
        ensures
            r == (self.0@.len() == 0),
    {
        self.0.is_empty()
    }

    /// Whether `node`, at `depth`, meets every criterion.
    pub fn apply(&self, node: &FileNode, depth: usize) -> (r: bool)
        requires
            node.tsize() <= u64::MAX,
        ensures
            r == self.all_hold(*node, depth),
    {
        let mut i: usize = 0;
        while i < self.0.len()
            invariant
                i <= self.0@.len(),
                node.tsize() <= u64::MAX,
                forall|j: int| 0 <= j < i ==> (#[trigger] self.0@[j]).holds(*node, depth),
            decreases self.0@.len() - i,
        {
            if !self.0[i].apply(node, depth) {
                return false;
            }
            i = i + 1;
        }
        true
    }
}

impl Default for FilterSet {
    fn default() -> (r: FilterSet)
        ensures
            r.0@.len() == 0,
    {
        FilterSet(Vec::new())
    }
}

} // verus!
