//! Pruning a scanned tree by a [`Filter`]: a node that fails the filter
//! (or lies deeper than its depth limit) is dropped with its whole
//! subtree; a failing root is replaced by an empty directory stub.
use vstd::prelude::*;
use crate::domain::{FileNode, FileNodeV, FileType, Filter, ScanResult};
use crate::sums::{lemma_sum_prefix_le, lemma_sum_take_all, lemma_sum_take_step, sum_nat};

verus! {

/// The node lies within the filter's depth limit (the root is depth 0).
pub open spec fn depth_ok(f: Filter, depth: nat) -> bool {
    match f.max_depth {
        Some(m) => depth <= m,
        None => true,
    }
}

/// The pruned tree at `n` and whether `n` itself was dropped. A dropped
/// node becomes a stub: same path and time, size zero, a directory, no
/// children.
pub open spec fn pruned(n: FileNodeV, f: Filter, depth: nat) -> (FileNodeV, bool)
    decreases n, 1nat, 0nat,
{
    if !(depth_ok(f, depth) && f.accepts_v(n)) {
        (
            FileNodeV {
                path: n.path,
                size: 0,
                modified: n.modified,
                file_type: FileType::Directory,
                children: Seq::empty(),
            },
            true,
        )
    } else {
        (FileNodeV { children: kept(n, f, depth, n.children.len() as nat), ..n }, false)
    }
}

/// The pruned trees of those of the first `k` children that are kept.
pub open spec fn kept(n: FileNodeV, f: Filter, depth: nat, k: nat) -> Seq<FileNodeV>
    decreases n, 0nat, k,
{
    if k == 0 || k > n.children.len() {
        Seq::empty()
    } else {
        let rest = kept(n, f, depth, (k - 1) as nat);
        let c = pruned(n.children[k - 1], f, depth + 1);
        if c.1 {
            rest
        } else {
            rest.push(c.0)
        }
    }
}

/// The entry counts of trees.
pub open spec fn counts(xs: Seq<FileNodeV>) -> Seq<nat> {
    xs.map_values(|x: FileNodeV| x.count())
}

proof fn lemma_counts_push(xs: Seq<FileNodeV>, c: FileNodeV)
    ensures
        sum_nat(counts(xs.push(c))) == sum_nat(counts(xs)) + c.count(),
{
    assert(counts(xs.push(c)).drop_last() =~= counts(xs));
}

/// Pruning never adds entries.
pub proof fn lemma_pruned_count(n: FileNodeV, f: Filter, depth: nat)
    ensures
        pruned(n, f, depth).0.count() <= n.count(),
    decreases n, 1nat, 0nat,
{
    let r = pruned(n, f, depth);
    if !(depth_ok(f, depth) && f.accepts_v(n)) {
        assert(r.0.child_counts() =~= Seq::<nat>::empty());
    } else {
        lemma_kept_count(n, f, depth, n.children.len() as nat);
        assert(r.0.child_counts() =~= counts(kept(n, f, depth, n.children.len() as nat)));
        lemma_sum_take_all(n.child_counts());
    }
}

proof fn lemma_kept_count(n: FileNodeV, f: Filter, depth: nat, k: nat)
    requires
        k <= n.children.len(),
    ensures
        sum_nat(counts(kept(n, f, depth, k))) <= sum_nat(n.child_counts().take(k as int)),
    decreases n, 0nat, k,
{
    if k == 0 {
        assert(counts(kept(n, f, depth, k)) =~= Seq::<nat>::empty());
        assert(n.child_counts().take(0) =~= Seq::<nat>::empty());
    } else {
        lemma_kept_count(n, f, depth, (k - 1) as nat);
        lemma_sum_take_step(n.child_counts(), k - 1);
        let c = pruned(n.children[k - 1], f, depth + 1);
        lemma_pruned_count(n.children[k - 1], f, depth + 1);
        if !c.1 {
            lemma_counts_push(kept(n, f, depth, (k - 1) as nat), c.0);
        }
    }
}

fn prune_node(node: &FileNode, filter: &Filter, depth: usize) -> (r: (FileNode, bool))
    requires
        depth + node@.height() <= usize::MAX,
    ensures
        (r.0@, r.1) == pruned(node@, *filter, depth as nat),
    decreases node,
{
    let depth_ok = match filter.max_depth {
        Some(max) => depth <= max,
        None => true,
    };
    let passes = depth_ok && filter.matches(node);
    if !passes {
        let stub = FileNode {
            path: node.path.clone(),
            size: 0,
            modified: node.modified,
            file_type: FileType::Directory,
            children: Vec::new(),
        };
        assert(stub@.children =~= Seq::<FileNodeV>::empty());
        return (stub, true);
    }
    let mut new_children: Vec<FileNode> = Vec::new();
    let mut k: usize = 0;
    while k < node.children.len()
        invariant
            k <= node.children@.len(),
            depth + node@.height() <= usize::MAX,
            new_children@.map_values(|c: FileNode| c@) == kept(node@, *filter, depth as nat, k as nat),
        decreases node.children@.len() - k,
    {
        proof {
            assert(node@.children[k as int] == node.children@[k as int]@);
            crate::domain::lemma_child_height(node@, k as int);
        }
        let ghost before = new_children@;
        let (child_pruned, child_pruned_flag) = prune_node(&node.children[k], filter, depth + 1);
        if !child_pruned_flag {
            new_children.push(child_pruned);
            assert(new_children@.map_values(|c: FileNode| c@) =~= before.map_values(|c: FileNode| c@).push(
                new_children@.last()@,
            ));
        }
        k = k + 1;
    }
    let r = FileNode {
        path: node.path.clone(),
        size: node.size,
        modified: node.modified,
        file_type: node.file_type,
        children: new_children,
    };
    assert(r@.children =~= new_children@.map_values(|c: FileNode| c@));
    (r, false)
}

/// A filter that sets no criterion keeps every entry (an age limit
/// counted from time 0 is met by every entry too): the tree comes back as
/// it was.
pub proof fn law_open_filter_prunes_nothing(n: FileNodeV, f: Filter, depth: nat)
    requires
        f.min_size is None,
        f.max_size is None,
        f.file_types is None,
        f.name_pattern is None,
        f.max_depth is None,
        f.max_age is None || f.now == 0,
    ensures
        pruned(n, f, depth) == (n, false),
    decreases n, 1nat, 0nat,
{
    lemma_open_filter_keeps(n, f, depth, n.children.len() as nat);
    assert(n.children.take(n.children.len() as int) =~= n.children);
    assert(FileNodeV { children: n.children, ..n } == n);
}

proof fn lemma_open_filter_keeps(n: FileNodeV, f: Filter, depth: nat, k: nat)
    requires
        f.min_size is None,
        f.max_size is None,
        f.file_types is None,
        f.name_pattern is None,
        f.max_depth is None,
        f.max_age is None || f.now == 0,
        k <= n.children.len(),
    ensures
        kept(n, f, depth, k) == n.children.take(k as int),
    decreases n, 0nat, k,
{
    if k > 0 {
        lemma_open_filter_keeps(n, f, depth, (k - 1) as nat);
        law_open_filter_prunes_nothing(n.children[k - 1], f, depth + 1);
        assert(n.children.take(k as int) =~= n.children.take(k - 1).push(n.children[k - 1]));
    } else {
        assert(n.children.take(0) =~= Seq::<FileNodeV>::empty());
    }
}

/// The result with its tree pruned by `filter`, its totals taken again
/// from the pruned root. Ages are measured from `filter.now`.
pub fn apply_filter(result: &ScanResult, filter: &Filter) -> (r: ScanResult)
    requires
        result.root@.height() <= usize::MAX,
        result.root.count() <= u64::MAX,
    ensures
        r.root@ == pruned(result.root@, *filter, 0).0,
        r.total_size == r.root.size,
        r.file_count == r.root.count(),
        r.scan_duration_ms == result.scan_duration_ms,
        r.skipped@.len() == 0,
        r.tombstones@.len() == 0,
{
    let (pruned_root, _was_pruned) = prune_node(&result.root, filter, 0);
    proof {
        lemma_pruned_count(result.root@, *filter, 0);
    }
    ScanResult::from_tree(pruned_root, result.scan_duration_ms)
}

} // verus!
