//! Scanner settings, and the decisions of an incremental walk: which
//! walked entries are recorded, which are skipped, and where a cached
//! subtree is reused in place of walking it again.
use vstd::prelude::*;
use crate::engine::domain::filter::Filter;
use crate::engine::tree::{EntryV, FileEntry, NodeType};

verus! {

/// The root's modification time and the byte count under it: what tells
/// whether a cached scan is still valid.
#[derive(Debug, Clone, Copy)]
pub struct RootMeta {
    /// Last modification of the root directory, in Unix seconds.
    pub modified: u64,
    /// Total bytes of the files under the root.
    pub total_bytes: u64,
}

/// Options of a walk.
#[derive(Debug, Clone)]
pub struct ScanOptions {
    /// Deepest level walked; unlimited when absent.
    pub max_depth: Option<usize>,
    /// Follow symbolic links.
    pub follow_symlinks: bool,
    /// Leave out what `.gitignore` files exclude.
    pub respect_gitignore: bool,
    /// Criteria applied during the walk.
    pub filters: Vec<Filter>,
}

impl Default for ScanOptions {
    fn default() -> (r: ScanOptions)
        ensures
            r.max_depth is None,
            !r.follow_symlinks,
            r.respect_gitignore,
            r.filters@.len() == 0,
    {
        ScanOptions { max_depth: None, follow_symlinks: false, respect_gitignore: true, filters: Vec::new() }
    }
}

/// The few settings of a walker.
#[derive(Debug, Clone)]
pub struct ScanConfig {
    pub respect_gitignore: bool,
    pub follow_symlinks: bool,
    pub max_depth: Option<usize>,
}

impl Default for ScanConfig {
    fn default() -> (r: ScanConfig)
        ensures
            r.respect_gitignore,
            !r.follow_symlinks,
            r.max_depth is None,
    {
        ScanConfig { respect_gitignore: true, follow_symlinks: false, max_depth: None }
    }
}

impl ScanConfig {
    /// The walk options of these settings, with no criteria.
    pub fn to_scan_options(&self) -> (r: ScanOptions)
        ensures
            r.respect_gitignore == self.respect_gitignore,
            r.follow_symlinks == self.follow_symlinks,
            r.max_depth == self.max_depth,
            r.filters@.len() == 0,
    {
        ScanOptions {
            respect_gitignore: self.respect_gitignore,
            follow_symlinks: self.follow_symlinks,
            max_depth: self.max_depth,
            filters: Vec::new(),
        }
    }
}

/// A scanner over a fixed set of options.
#[derive(Debug, Clone)]
pub struct DirectScanner {
    pub options: ScanOptions,
}

impl DirectScanner {
    /// A scanner with these options.
    pub fn new(options: ScanOptions) -> (r: DirectScanner)
        ensures
            r.options == options,
    {
        DirectScanner { options }
    }
}

/// One entry met by the walker, with what the walk knows of it.
#[derive(Debug)]
pub struct WalkEvent {
    /// Depth in the walk (the root is at 0).
    pub depth: usize,
    /// Number of components of the entry's path.
    pub components: usize,
    pub path: String,
    /// The entry's file name (empty when it has none).
    pub name: String,
    pub is_dir: bool,
    pub is_symlink: bool,
    /// Length and modification time (Unix seconds; 0 when unknown), when
    /// the entry's metadata could be read.
    pub meta: Option<(u64, u64)>,
    /// For a directory, what the cache holds for its path: the stored
    /// modification time and kind.
    pub cached: Option<(u64, NodeType)>,
}

/// What to do with an entry met by the walker.
#[derive(Debug)]
pub enum WalkAction {
    /// Nothing: it lies in a reused subtree, or its metadata is unreadable.
    Skip,
    /// The directory is unchanged: take its subtree from the cache, its
    /// own entry at this depth.
    Reuse { depth: u32 },
    /// The entry is recorded (and stored in the cache).
    Record(FileEntry),
}

/// The state of an incremental walk.
#[derive(Debug)]
pub struct IncrementalWalk {
    /// Number of components of the root's path.
    pub root_components: usize,
    /// While set, entries deeper than this lie in a reused subtree.
    pub skip_depth: Option<usize>,
    /// The entries so far.
    pub entries: Vec<FileEntry>,
}

/// The depth of an entry below the root, by components (never negative),
/// as 32 bits.
pub open spec fn rel_depth(components: usize, root_components: usize) -> u32 {
    if components >= root_components {
        (components - root_components) as u32
    } else {
        0
    }
}

/// The entry recorded for a walked directory with modification time
/// `mtime`.
pub open spec fn dir_entry(ev: WalkEvent, depth: u32, mtime: u64) -> EntryV {
    EntryV { path: ev.path@, name: ev.name@, size: 0, modified: mtime, node_type: NodeType::Dir, depth }
}

/// The entry recorded for a walked file of length `len`.
pub open spec fn file_entry(ev: WalkEvent, depth: u32, len: u64, mtime: u64) -> EntryV {
    EntryV {
        path: ev.path@,
        name: ev.name@,
        size: len,
        modified: mtime,
        node_type: if ev.is_symlink {
            NodeType::Symlink
        } else {
            NodeType::File
        },
        depth,
    }
}

/// The modification time of a directory event (0 when unknown).
pub open spec fn dir_mtime(ev: WalkEvent) -> u64 {
    match ev.meta {
        Some(m) => m.1,
        None => 0,
    }
}

/// The values of entries.
pub open spec fn entry_views(v: Seq<FileEntry>) -> Seq<EntryV> {
    v.map_values(|e: FileEntry| e.ev())
}

/// What one step of the walk does: the action, the skip depth after it,
/// and the entry it records, if any.
pub open spec fn step_of(skip: Option<usize>, root_components: usize, ev: WalkEvent) -> (WalkActionV, Option<usize>) {
    let inside = match skip {
        Some(sd) => ev.depth > sd,
        None => false,
    };
    let skip1 = if inside { skip } else { None };
    let d = rel_depth(ev.components, root_components);
    if inside {
        (WalkActionV::Skip, skip1)
    } else if ev.is_dir {
        let mtime = dir_mtime(ev);
        if ev.cached matches Some(c) && c.0 == mtime && c.1 == NodeType::Dir {
            (WalkActionV::Reuse(d), Some(ev.depth))
        } else {
            (WalkActionV::Record(dir_entry(ev, d, mtime)), skip1)
        }
    } else {
        match ev.meta {
            Some(m) => (WalkActionV::Record(file_entry(ev, d, m.0, m.1)), skip1),
            None => (WalkActionV::Skip, skip1),
        }
    }
}

/// The value of a [`WalkAction`].
pub enum WalkActionV {
    Skip,
    Reuse(u32),
    Record(EntryV),
}

/// The value of an action.
pub open spec fn action_view(a: WalkAction) -> WalkActionV {
    match a {
        WalkAction::Skip => WalkActionV::Skip,
        WalkAction::Reuse { depth } => WalkActionV::Reuse(depth),
        WalkAction::Record(e) => WalkActionV::Record(e.ev()),
    }
}

fn rel_depth_exec(components: usize, root_components: usize) -> (r: u32)
    ensures
        r == rel_depth(components, root_components),
{
    if components >= root_components {
        (components - root_components) as u32
    } else {
        0
    }
}

impl IncrementalWalk {
    /// A walk from a root whose path has `root_components` components.
    pub fn new(root_components: usize) -> (r: IncrementalWalk)
        ensures
            r.root_components == root_components,
            r.skip_depth is None,
            r.entries@.len() == 0,
    {
        IncrementalWalk { root_components, skip_depth: None, entries: Vec::new() }
    }

    /// Decides on one walked entry: entries below a reused directory are
    /// skipped; an unchanged directory (the cache holds it as a directory
    /// with the same modification time) is reused and its subtree skipped;
    /// another directory is recorded with size 0; a file is recorded with
    /// its length, or skipped when its metadata is unreadable. A recorded
    /// entry is added to the entries.
    pub fn step(&mut self, ev: WalkEvent) -> (r: WalkAction)
        ensures
            ({
                let s = step_of(old(self).skip_depth, old(self).root_components, ev);
                &&& action_view(r) == s.0
                &&& final(self).skip_depth == s.1
                &&& final(self).root_components == old(self).root_components
                &&& entry_views(final(self).entries@) == match s.0 {
                    WalkActionV::Record(e) => entry_views(old(self).entries@).push(e),
                    _ => entry_views(old(self).entries@),
                }
            }),
    {
        let ghost before = entry_views(self.entries@);
        let inside = match self.skip_depth {
            Some(sd) => ev.depth > sd,
            None => false,
        };
        if inside {
            return WalkAction::Skip;
        }
        self.skip_depth = None;
        let d = rel_depth_exec(ev.components, self.root_components);
        if ev.is_dir {
            let mtime = match ev.meta {
                Some(m) => m.1,
                None => 0,
            };
            let unchanged = match ev.cached {
                Some(c) => c.0 == mtime && c.1 == NodeType::Dir,
                None => false,
            };
            if unchanged {
                self.skip_depth = Some(ev.depth);
                return WalkAction::Reuse { depth: d };
            }
            let e = FileEntry { path: ev.path, name: ev.name, size: 0, modified: mtime, node_type: NodeType::Dir, depth: d };
            let kept = e.copy();
            self.entries.push(kept);
            assert(entry_views(self.entries@) =~= before.push(e.ev()));
            WalkAction::Record(e)
        } else {
            match ev.meta {
                Some(m) => {
                    let node_type = if ev.is_symlink {
                        NodeType::Symlink
                    } else {
                        NodeType::File
                    };
                    let e = FileEntry { path: ev.path, name: ev.name, size: m.0, modified: m.1, node_type, depth: d };
                    let kept = e.copy();
                    self.entries.push(kept);
                    assert(entry_views(self.entries@) =~= before.push(e.ev()));
                    WalkAction::Record(e)
                },
                None => WalkAction::Skip,
            }
        }
    }

    /// Adds the cached entry of a reused directory, at the depth the step
    /// gave.
    pub fn add_reused_root(&mut self, entry: FileEntry, depth: u32)
        ensures
            entry_views(final(self).entries@) == entry_views(old(self).entries@).push(
                EntryV { depth, ..entry.ev() },
            ),
            final(self).skip_depth == old(self).skip_depth,
            final(self).root_components == old(self).root_components,
    {
        let ghost before = entry_views(self.entries@);
        let mut e = entry;
        e.depth = depth;
        self.entries.push(e);
        assert(entry_views(self.entries@) =~= before.push(EntryV { depth, ..entry.ev() }));
    }

    /// Adds a cached entry found under a reused directory that sits at
    /// `depth` and has `dir_components` components: its depth is one more
    /// than the directory's plus its extra components beyond the first.
    pub fn add_reused_descendant(&mut self, entry: FileEntry, depth: u32, components: usize, dir_components: usize)
        requires
            dir_components < usize::MAX,
            depth + 1 + rel_depth(components, (dir_components + 1) as usize) <= u32::MAX,
        ensures
            entry_views(final(self).entries@) == entry_views(old(self).entries@).push(
                EntryV { depth: (depth + 1 + rel_depth(components, (dir_components + 1) as usize)) as u32, ..entry.ev() },
            ),
            final(self).skip_depth == old(self).skip_depth,
            final(self).root_components == old(self).root_components,
    {
        let ghost before = entry_views(self.entries@);
        let extra = rel_depth_exec(components, dir_components + 1);
        let d = depth + 1 + extra;
        let ghost ev = entry.ev();
        let mut e = entry;
        e.depth = d;
        self.entries.push(e);
        assert(entry_views(self.entries@) =~= before.push(EntryV { depth: d, ..ev }));
    }
}

} // verus!
