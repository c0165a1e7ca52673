//! A scan result built from a flat list of entries: the entry with the
//! shortest path is the root, every other entry hangs under its parent
//! directory, and the children of every node go largest total first.
use vstd::prelude::*;
use crate::grouping::{
    distinct_keys, group_text, groups_of, int_groups, ints, lemma_distinct_contains,
    lemma_distinct_unique, lemma_positions_hold, lemma_positions_present, positions_of, texts,
};
use crate::paths::{parent_of, path_parent};
use crate::text::{chars_of, str_eq};

verus! {

/// Kind of a scanned entry.
#[derive(Debug, Clone, Copy, PartialEq, Eq, Structural)]
pub enum NodeType {
    Dir,
    File,
    Symlink,
}

/// One scanned entry.
#[derive(Debug)]
pub struct FileEntry {
    pub path: String,
    pub name: String,
    pub size: u64,
    /// Last modification, in Unix seconds.
    pub modified: u64,
    pub node_type: NodeType,
    pub depth: u32,
}

/// The value of a [`FileEntry`].
pub struct EntryV {
    pub path: Seq<char>,
    pub name: Seq<char>,
    pub size: u64,
    pub modified: u64,
    pub node_type: NodeType,
    pub depth: u32,
}

impl FileEntry {
    /// The value of this entry.
    pub open spec fn ev(&self) -> EntryV {
        EntryV {
            path: self.path@,
            name: self.name@,
            size: self.size,
            modified: self.modified,
            node_type: self.node_type,
            depth: self.depth,
        }
    }

    /// A copy of this entry.
    pub fn copy(&self) -> (r: FileEntry)
        ensures
            r.ev() == self.ev(),
    {
        FileEntry {
            path: self.path.clone(),
            name: self.name.clone(),
            size: self.size,
            modified: self.modified,
            node_type: self.node_type,
            depth: self.depth,
        }
    }
}

impl Clone for FileEntry {
    fn clone(&self) -> (r: FileEntry)
        ensures
            r.ev() == self.ev(),
    {
        self.copy()
    }
}

/// A node of the built tree: its entry, its children and the total size
/// of the files below it (a file's own size for a file).
#[derive(Debug)]
pub struct TreeNode {
    pub entry: FileEntry,
    pub children: Vec<TreeNode>,
    pub total_size: u64,
}

/// The value of a [`TreeNode`].
pub struct TreeV {
    pub entry: EntryV,
    pub children: Seq<TreeV>,
    pub total: nat,
}

impl TreeNode {
    /// The value of this tree.
    pub open spec fn tv(self) -> TreeV
        decreases self,
    {
        TreeV {
            entry: self.entry.ev(),
            children: Seq::new(
                self.children@.len(),
                |i: int|
                    if 0 <= i < self.children@.len() {
                        self.children@[i].tv()
                    } else {
                        arbitrary()
                    },
            ),
            total: self.total_size as nat,
        }
    }
}

/// The values of trees.
pub open spec fn tvs(v: Seq<TreeNode>) -> Seq<TreeV> {
    v.map_values(|t: TreeNode| t.tv())
}

/// A built tree with its total size and number of nodes.
#[derive(Debug)]
pub struct ScanResult {
    pub root: TreeNode,
    pub total_size: u64,
    pub entry_count: usize,
}

/// Builds a [`ScanResult`] from a flat list of entries.
pub struct TreeBuilder;

/// Column a table is ordered by.
#[derive(Debug, Clone, Copy, PartialEq, Eq, Structural)]
pub enum SortKey {
    Size,
    Name,
    Modified,
}

/// Direction of an ordering.
#[derive(Debug, Clone, Copy, PartialEq, Eq, Structural)]
pub enum SortDir {
    Asc,
    Desc,
}

/// An entry with the parent of its path.
pub type Placed = (EntryV, Option<Seq<char>>);

/// The paths of entries.
pub open spec fn entry_paths(es: Seq<EntryV>) -> Seq<Seq<char>> {
    es.map_values(|e: EntryV| e.path)
}

/// One entry per distinct path, in order of first appearance, each the
/// last entry given with that path, with its parent.
pub open spec fn dedup(es: Seq<EntryV>, ps: Seq<Option<Seq<char>>>) -> Seq<Placed> {
    groups_of(entry_paths(es)).map_values(|g: Seq<int>| (es[g.last()], ps[g.last()]))
}

/// The greatest path length among placed entries.
pub open spec fn max_len(d: Seq<Placed>) -> nat
    decreases d.len(),
{
    if d.len() == 0 {
        0
    } else {
        let m = max_len(d.drop_last());
        if d.last().0.path.len() > m {
            d.last().0.path.len()
        } else {
            m
        }
    }
}

/// Every path is at most the greatest length.
pub proof fn lemma_max_len(d: Seq<Placed>, j: int)
    requires
        0 <= j < d.len(),
    ensures
        d[j].0.path.len() <= max_len(d),
    decreases d.len(),
{
    if j < d.len() - 1 {
        lemma_max_len(d.drop_last(), j);
    }
}

/// Entry `j` hangs directly under entry `i`: its parent is `i`'s path and
/// it is not `i` itself. (A parent is shorter than its child, which the
/// last condition states so that the nesting is bounded.)
pub open spec fn is_kid(d: Seq<Placed>, i: int, j: int) -> bool {
    &&& d[j].1 == Some(d[i].0.path)
    &&& d[j].0.path != d[i].0.path
    &&& d[j].0.path.len() > d[i].0.path.len()
}

/// The node of entry `i`: its kids (directories built the same way,
/// other entries as leaves of their own size), largest total first, and
/// the sum of their totals.
pub open spec fn node_tree(d: Seq<Placed>, i: int) -> TreeV
    decreases max_len(d) - d[i].0.path.len(), 1int, 0int,
{
    let sorted = by_total_desc(kid_trees(d, i, d.len() as nat));
    TreeV { entry: d[i].0, children: sorted, total: sum_totals(sorted) }
}

/// The trees of the kids of entry `i` among the first `k` entries, in
/// order.
pub open spec fn kid_trees(d: Seq<Placed>, i: int, k: nat) -> Seq<TreeV>
    decreases max_len(d) - d[i].0.path.len(), 0int, k,
{
    if k == 0 || k > d.len() {
        Seq::empty()
    } else {
        let rest = kid_trees(d, i, (k - 1) as nat);
        let j = k - 1;
        if is_kid(d, i, j) {
            if d[j].0.node_type == NodeType::Dir {
                proof {
                    lemma_max_len(d, j);
                }
                rest.push(node_tree(d, j))
            } else {
                rest.push(leaf_tree(d[j].0))
            }
        } else {
            rest
        }
    }
}

/// A leaf: the entry, no children, its own size.
pub open spec fn leaf_tree(e: EntryV) -> TreeV {
    TreeV { entry: e, children: Seq::empty(), total: e.size as nat }
}

/// The sum of the totals of trees.
pub open spec fn sum_totals(s: Seq<TreeV>) -> nat
    decreases s.len(),
{
    if s.len() == 0 {
        0
    } else {
        sum_totals(s.drop_last()) + s.last().total
    }
}

/// Where `x` goes in `s` (sorted largest total first) so that it follows
/// every tree at least as large: scanning back from position `k`.
pub open spec fn ins_pos(s: Seq<TreeV>, x: TreeV, k: nat) -> nat
    decreases k,
{
    if k > 0 && k <= s.len() && s[k - 1].total < x.total {
        ins_pos(s, x, (k - 1) as nat)
    } else {
        k
    }
}

/// `s` stably sorted by total, largest first.
pub open spec fn by_total_desc(s: Seq<TreeV>) -> Seq<TreeV>
    decreases s.len(),
{
    if s.len() == 0 {
        Seq::empty()
    } else {
        let r = by_total_desc(s.drop_last());
        r.insert(ins_pos(r, s.last(), r.len()) as int, s.last())
    }
}

/// Every total in the tree fits in 64 bits.
pub open spec fn tree_fits(t: TreeV) -> bool
    decreases t,
{
    &&& t.total <= u64::MAX
    &&& forall|c: int| 0 <= c < t.children.len() ==> tree_fits(#[trigger] t.children[c])
}

/// The number of levels below the root of the tree.
pub open spec fn tree_height(t: TreeV) -> nat
    decreases t, 1nat,
{
    if t.children.len() == 0 {
        0
    } else {
        1 + max_height(t, t.children.len() as nat)
    }
}

/// The greatest height among the first `k` children.
pub open spec fn max_height(t: TreeV, k: nat) -> nat
    decreases t, 0nat, k,
{
    if k == 0 || k > t.children.len() {
        0
    } else {
        let h = tree_height(t.children[k - 1]);
        let m = max_height(t, (k - 1) as nat);
        if h > m {
            h
        } else {
            m
        }
    }
}

proof fn lemma_max_height(t: TreeV, k: nat, i: int)
    requires
        0 <= i < k <= t.children.len(),
    ensures
        tree_height(t.children[i]) <= max_height(t, k),
    decreases k,
{
    if i < k - 1 {
        lemma_max_height(t, (k - 1) as nat, i);
    }
}

/// A child is at least one level lower than its parent.
pub proof fn lemma_child_height(t: TreeV, i: int)
    requires
        0 <= i < t.children.len(),
    ensures
        tree_height(t.children[i]) + 1 <= tree_height(t),
{
    lemma_max_height(t, t.children.len() as nat, i);
}

/// The number of nodes of the tree.
pub open spec fn tree_count(t: TreeV) -> nat
    decreases t, 1nat,
{
    1 + count_list(t, t.children.len() as nat)
}

/// The number of nodes under the first `k` children.
pub open spec fn count_list(t: TreeV, k: nat) -> nat
    decreases t, 0nat, k,
{
    if k == 0 || k > t.children.len() {
        0
    } else {
        count_list(t, (k - 1) as nat) + tree_count(t.children[k - 1])
    }
}

/// The number of bytes of a character in UTF-8.
pub open spec fn utf8_width(c: char) -> nat {
    if (c as u32) < 0x80 {
        1
    } else if (c as u32) < 0x800 {
        2
    } else if (c as u32) < 0x10000 {
        3
    } else {
        4
    }
}

/// The number of bytes of a text in UTF-8.
pub open spec fn byte_len(s: Seq<char>) -> nat
    decreases s.len(),
{
    if s.len() == 0 {
        0
    } else {
        byte_len(s.drop_last()) + utf8_width(s.last())
    }
}

/// The first position of the least value.
pub open spec fn first_min(ls: Seq<nat>) -> int
    decreases ls.len(),
{
    if ls.len() <= 1 {
        0
    } else {
        let m = first_min(ls.drop_last());
        if ls.last() < ls[m] {
            ls.len() - 1
        } else {
            m
        }
    }
}

/// The path of the root: that of the first entry whose path is shortest
/// in bytes.
pub open spec fn root_path(es: Seq<EntryV>) -> Seq<char> {
    es[first_min(es.map_values(|e: EntryV| byte_len(e.path)))].path
}

/// The tree built from non-empty `es`, given the parent of each path.
pub open spec fn scan_tree(es: Seq<EntryV>, ps: Seq<Option<Seq<char>>>) -> TreeV {
    let dk = distinct_keys(entry_paths(es));
    let g = choose|g: int| 0 <= g < dk.len() && dk[g] == root_path(es);
    node_tree(dedup(es, ps), g)
}

/// The result built from no entries: an empty directory root.
pub open spec fn empty_result(r: ScanResult) -> bool {
    &&& r.root.entry.path@.len() == 0
    &&& r.root.entry.name@.len() == 0
    &&& r.root.entry.size == 0
    &&& r.root.entry.modified == 0
    &&& r.root.entry.node_type == NodeType::Dir
    &&& r.root.entry.depth == 0
    &&& r.root.children@.len() == 0
    &&& r.root.total_size == 0
    &&& r.total_size == 0
    &&& r.entry_count == 0
}

/// The values of entries.
pub open spec fn evs(v: Seq<FileEntry>) -> Seq<EntryV> {
    v.map_values(|e: FileEntry| e.ev())
}

/// The parents of paths.
pub open spec fn parents_v(v: Seq<Option<String>>) -> Seq<Option<Seq<char>>> {
    v.map_values(|o: Option<String>| opt_text(o))
}

/// The parents of the paths of entries.
pub open spec fn named_parents(es: Seq<EntryV>) -> Seq<Option<Seq<char>>> {
    es.map_values(|e: EntryV| path_parent(e.path))
}

/// What building gives: the result for no entries; otherwise the tree
/// and its count where every total and the count fit, and nothing where
/// one does not.
pub open spec fn built(es: Seq<EntryV>, ps: Seq<Option<Seq<char>>>, r: Option<ScanResult>) -> bool {
    if es.len() == 0 {
        r matches Some(res) && empty_result(res)
    } else {
        let t = scan_tree(es, ps);
        &&& (r is Some <==> tree_fits(t) && tree_count(t) <= usize::MAX)
        &&& r matches Some(res) ==> {
            &&& res.root.tv() == t
            &&& res.total_size == t.total
            &&& res.entry_count == tree_count(t)
        }
    }
}

/// A parent path as text.
pub open spec fn opt_text(o: Option<String>) -> Option<Seq<char>> {
    match o {
        Some(s) => Some(s@),
        None => None,
    }
}

/// Placed entries held in two vectors.
pub open spec fn placed_v(es: Seq<FileEntry>, ps: Seq<Option<String>>) -> Seq<Placed> {
    Seq::new(es.len(), |k: int| (es[k].ev(), opt_text(ps[k])))
}

fn copy_opt(o: &Option<String>) -> (r: Option<String>)
    ensures
        opt_text(r) == opt_text(*o),
{
    match o {
        Some(s) => Some(s.clone()),
        None => None,
    }
}

/// The kids' trees of a prefix are a prefix of the kids' trees.
proof fn lemma_kid_prefix(d: Seq<Placed>, i: int, k: nat, n: nat)
    requires
        k <= n <= d.len(),
    ensures
        kid_trees(d, i, k).len() <= kid_trees(d, i, n).len(),
        forall|m: int| 0 <= m < kid_trees(d, i, k).len() ==> #[trigger] kid_trees(d, i, n)[m] == kid_trees(d, i, k)[m],
    decreases n - k,
{
    if k < n {
        lemma_kid_prefix(d, i, k, (n - 1) as nat);
    }
}

proof fn lemma_ins_pos_le(s: Seq<TreeV>, x: TreeV, k: nat)
    requires
        k <= s.len(),
    ensures
        ins_pos(s, x, k) <= k,
    decreases k,
{
    if k > 0 && s[k - 1].total < x.total {
        lemma_ins_pos_le(s, x, (k - 1) as nat);
    }
}

/// Sorting keeps the trees: each sorted tree is one of the given trees,
/// and each given tree is among the sorted ones.
pub proof fn lemma_by_total_members(s: Seq<TreeV>)
    ensures
        by_total_desc(s).len() == s.len(),
        forall|k: int| 0 <= k < s.len() ==> s.contains(#[trigger] by_total_desc(s)[k]),
        forall|k: int| 0 <= k < s.len() ==> by_total_desc(s).contains(#[trigger] s[k]),
    decreases s.len(),
{
    if s.len() > 0 {
        let d = s.drop_last();
        lemma_by_total_members(d);
        let r = by_total_desc(d);
        let p = ins_pos(r, s.last(), r.len());
        lemma_ins_pos_le(r, s.last(), r.len());
        let t = by_total_desc(s);
        assert(t == r.insert(p as int, s.last()));
        assert forall|k: int| 0 <= k < s.len() implies s.contains(#[trigger] t[k]) by {
            if k < p {
                assert(t[k] == r[k]);
                assert(d.contains(r[k]));
                let j = choose|j: int| 0 <= j < d.len() && d[j] == r[k];
                assert(s[j] == d[j]);
            } else if k == p {
                assert(s[s.len() - 1] == t[k]);
            } else {
                assert(t[k] == r[k - 1]);
                assert(d.contains(r[k - 1]));
                let j = choose|j: int| 0 <= j < d.len() && d[j] == r[k - 1];
                assert(s[j] == d[j]);
            }
        }
        assert forall|k: int| 0 <= k < s.len() implies t.contains(#[trigger] s[k]) by {
            if k < s.len() - 1 {
                assert(s[k] == d[k]);
                assert(r.contains(d[k]));
                let m = choose|m: int| 0 <= m < r.len() && r[m] == d[k];
                if m < p {
                    assert(t[m] == r[m]);
                } else {
                    assert(t[m + 1] == r[m]);
                }
            } else {
                assert(t[p as int] == s[k]);
            }
        }
    }
}

/// A prefix sum of totals is at most the whole sum.
proof fn lemma_sum_totals_prefix(s: Seq<TreeV>, k: int)
    requires
        0 <= k <= s.len(),
    ensures
        sum_totals(s.take(k)) <= sum_totals(s),
    decreases s.len() - k,
{
    if k < s.len() {
        assert(s.take(k + 1).drop_last() =~= s.take(k));
        lemma_sum_totals_prefix(s, k + 1);
    } else {
        assert(s.take(k) =~= s);
    }
}

fn sort_desc(items: Vec<TreeNode>) -> (r: Vec<TreeNode>)
    ensures
        tvs(r@) == by_total_desc(tvs(items@)),
{
    let ghost all = tvs(items@);
    let mut src = items;
    let mut out: Vec<TreeNode> = Vec::new();
    let ghost mut k: int = 0;
    while src.len() > 0
        invariant
            0 <= k <= all.len(),
            tvs(src@) == all.skip(k),
            tvs(out@) == by_total_desc(all.take(k)),
        decreases src@.len(),
    {
        proof {
            assert(tvs(src@).len() == src@.len());
            assert(all.skip(k).len() == all.len() - k);
            assert(tvs(src@)[0] == src@[0].tv());
        }
        let ghost old_src = src@;
        let x = src.remove(0);
        proof {
            assert(src@ =~= old_src.subrange(1, old_src.len() as int));
            assert(tvs(old_src) == all.skip(k));
            assert forall|m: int| 0 <= m < src@.len() implies #[trigger] tvs(src@)[m] == all.skip(k + 1)[m] by {
                assert(tvs(src@)[m] == src@[m].tv());
                assert(src@[m] == old_src[m + 1]);
                assert(tvs(old_src)[m + 1] == old_src[m + 1].tv());
            }
            assert(x.tv() == all[k]);
            assert(all.take(k + 1).drop_last() =~= all.take(k));
            assert(tvs(src@) =~= all.skip(k + 1));
        }
        let ghost rv = tvs(out@);
        let mut pos = out.len();
        while pos > 0 && out[pos - 1].total_size < x.total_size
            invariant
                pos <= out@.len(),
                rv == tvs(out@),
                ins_pos(rv, x.tv(), out@.len() as nat) == ins_pos(rv, x.tv(), pos as nat),
            decreases pos,
        {
            assert(rv[pos - 1] == out@[pos - 1].tv());
            pos = pos - 1;
        }
        proof {
            if pos > 0 {
                assert(rv[pos - 1] == out@[pos - 1].tv());
            }
        }
        let ghost xv = x.tv();
        out.insert(pos, x);
        assert(tvs(out@) =~= rv.insert(pos as int, xv));
        proof {
            k = k + 1;
        }
    }
    assert(all.take(k) =~= all);
    out
}

fn count_nodes(node: &TreeNode) -> (r: Option<usize>)
    ensures
        match r {
            Some(c) => c == tree_count(node.tv()),
            None => tree_count(node.tv()) > usize::MAX,
        },
    decreases node,
{
    let ghost t = node.tv();
    let mut total: usize = 1;
    let mut k: usize = 0;
    while k < node.children.len()
        invariant
            k <= node.children@.len(),
            t == node.tv(),
            t.children.len() == node.children@.len(),
            total == 1 + count_list(t, k as nat),
        decreases node.children@.len() - k,
    {
        assert(t.children[k as int] == node.children@[k as int].tv());
        proof {
            lemma_count_list_prefix(t, (k + 1) as nat, t.children.len() as nat);
        }
        match count_nodes(&node.children[k]) {
            Some(c) => {
                match total.checked_add(c) {
                    Some(v) => {
                        total = v;
                    },
                    None => {
                        return None;
                    },
                }
            },
            None => {
                return None;
            },
        }
        k = k + 1;
    }
    Some(total)
}

proof fn lemma_count_list_prefix(t: TreeV, k: nat, n: nat)
    requires
        k <= n <= t.children.len(),
    ensures
        count_list(t, k) <= count_list(t, n),
    decreases n - k,
{
    if k < n {
        lemma_count_list_prefix(t, k, (n - 1) as nat);
    }
}

fn build_node(
    dent: &Vec<FileEntry>,
    dpar: &Vec<Option<String>>,
    lens: &Vec<usize>,
    i: usize,
    Ghost(d): Ghost<Seq<Placed>>,
) -> (r: Option<TreeNode>)
    requires
        d == placed_v(dent@, dpar@),
        dent@.len() == dpar@.len(),
        lens@.len() == dent@.len(),
        forall|k: int| 0 <= k < lens@.len() ==> lens@[k] == #[trigger] dent@[k].path@.len(),
        i < dent@.len(),
    ensures
        match r {
            Some(t) => t.tv() == node_tree(d, i as int) && tree_fits(node_tree(d, i as int)),
            None => !tree_fits(node_tree(d, i as int)),
        },
    decreases max_len(d) - d[i as int].0.path.len(),
{
    let ghost n = d.len();
    let mut kids: Vec<TreeNode> = Vec::new();
    let mut j: usize = 0;
    while j < dent.len()
        invariant
            j <= dent@.len(),
            d == placed_v(dent@, dpar@),
            n == d.len(),
            dent@.len() == dpar@.len(),
            lens@.len() == dent@.len(),
            forall|k: int| 0 <= k < lens@.len() ==> lens@[k] == #[trigger] dent@[k].path@.len(),
            i < dent@.len(),
            tvs(kids@) == kid_trees(d, i as int, j as nat),
            forall|c: int| 0 <= c < kids@.len() ==> tree_fits(#[trigger] tvs(kids@)[c]),
        decreases dent@.len() - j,
    {
        let ghost before = tvs(kids@);
        assert(d[j as int] == (dent@[j as int].ev(), opt_text(dpar@[j as int])));
        assert(d[i as int] == (dent@[i as int].ev(), opt_text(dpar@[i as int])));
        let kid = match &dpar[j] {
            Some(p) => str_eq(p.as_str(), dent[i].path.as_str()) && !str_eq(
                dent[j].path.as_str(),
                dent[i].path.as_str(),
            ) && lens[j] > lens[i],
            None => false,
        };
        assert(kid == is_kid(d, i as int, j as int));
        if kid {
            if dent[j].node_type == NodeType::Dir {
                proof {
                    lemma_max_len(d, j as int);
                }
                match build_node(dent, dpar, lens, j, Ghost(d)) {
                    Some(t) => {
                        kids.push(t);
                        assert(tvs(kids@) =~= before.push(node_tree(d, j as int)));
                    },
                    None => {
                        proof {
                            let all = kid_trees(d, i as int, n);
                            lemma_kid_prefix(d, i as int, (j + 1) as nat, n);
                            assert(kid_trees(d, i as int, (j + 1) as nat) == before.push(node_tree(d, j as int)));
                            assert(all[before.len() as int] == node_tree(d, j as int));
                            lemma_by_total_members(all);
                            assert(all.contains(node_tree(d, j as int)));
                            let sorted = by_total_desc(all);
                            assert(sorted.contains(all[before.len() as int]));
                            let m = choose|m: int| 0 <= m < sorted.len() && sorted[m] == node_tree(d, j as int);
                            assert(node_tree(d, i as int).children[m] == node_tree(d, j as int));
                        }
                        return None;
                    },
                }
            } else {
                kids.push(TreeNode { entry: dent[j].copy(), children: Vec::new(), total_size: dent[j].size });
                proof {
                    let t = kids@[kids@.len() - 1];
                    assert(t.tv().children =~= Seq::<TreeV>::empty());
                    assert(t.tv() == leaf_tree(d[j as int].0));
                    assert(tvs(kids@) =~= before.push(leaf_tree(d[j as int].0)));
                }
            }
        }
        j = j + 1;
    }
    let ghost kv = tvs(kids@);
    proof {
        lemma_by_total_members(kv);
    }
    let sorted = sort_desc(kids);
    let ghost sv = tvs(sorted@);
    assert(sv == node_tree(d, i as int).children);
    let mut total: u64 = 0;
    let mut c: usize = 0;
    while c < sorted.len()
        invariant
            c <= sorted@.len(),
            sv == tvs(sorted@),
            sv == node_tree(d, i as int).children,
            total == sum_totals(sv.take(c as int)),
        decreases sorted@.len() - c,
    {
        proof {
            assert(sv.take(c + 1).drop_last() =~= sv.take(c as int));
            assert(sv[c as int] == sorted@[c as int].tv());
        }
        match total.checked_add(sorted[c].total_size) {
            Some(v) => {
                total = v;
            },
            None => {
                proof {
                    lemma_sum_totals_prefix(sv, c + 1);
                    assert(node_tree(d, i as int).total == sum_totals(sv));
                    assert(sum_totals(sv.take(c + 1)) == total + sorted@[c as int].total_size);
                }
                return None;
            },
        }
        c = c + 1;
    }
    assert(sv.take(c as int) =~= sv);
    let r = TreeNode { entry: dent[i].copy(), children: sorted, total_size: total };
    proof {
        assert(d[i as int] == (dent@[i as int].ev(), opt_text(dpar@[i as int])));
        assert(r.tv().children =~= sv);
        assert forall|m: int| 0 <= m < sv.len() implies tree_fits(#[trigger] sv[m]) by {
            assert(kv.contains(sv[m]));
            let w = choose|w: int| 0 <= w < kv.len() && kv[w] == sv[m];
        }
    }
    Some(r)
}

fn byte_len_of(s: &str) -> (n: u128)
    ensures
        n == byte_len(s@),
{
    let cs = chars_of(s);
    let mut n: u128 = 0;
    let mut i: usize = 0;
    while i < cs.len()
        invariant
            i <= cs@.len(),
            cs@ == s@,
            n == byte_len(cs@.take(i as int)),
            n <= 4 * i,
        decreases cs@.len() - i,
    {
        let c = cs[i];
        let w: u128 = if (c as u32) < 0x80 {
            1
        } else if (c as u32) < 0x800 {
            2
        } else if (c as u32) < 0x10000 {
            3
        } else {
            4
        };
        assert(cs@.take(i + 1).drop_last() =~= cs@.take(i as int));
        n = n + w;
        i = i + 1;
    }
    assert(cs@.take(i as int) =~= s@);
    n
}

fn root_index(entries: &Vec<FileEntry>) -> (m: usize)
    requires
        entries@.len() > 0,
    ensures
        m < entries@.len(),
        entries@[m as int].path@ == root_path(evs(entries@)),
{
    let ghost ls = evs(entries@).map_values(|e: EntryV| byte_len(e.path));
    let mut m: usize = 0;
    let mut best = byte_len_of(entries[0].path.as_str());
    let mut k: usize = 1;
    assert(ls.take(1).len() == 1);
    while k < entries.len()
        invariant
            1 <= k <= entries@.len(),
            ls == evs(entries@).map_values(|e: EntryV| byte_len(e.path)),
            m < k,
            m as int == first_min(ls.take(k as int)),
            best == ls[m as int],
        decreases entries@.len() - k,
    {
        let len = byte_len_of(entries[k].path.as_str());
        assert(ls.take(k + 1).drop_last() =~= ls.take(k as int));
        assert(ls.take(k as int)[m as int] == ls[m as int]);
        if len < best {
            m = k;
            best = len;
        }
        k = k + 1;
    }
    assert(ls.take(k as int) =~= ls);
    m
}

fn place(entries: &Vec<FileEntry>, parents: &Vec<Option<String>>) -> (r: (Vec<FileEntry>, Vec<Option<String>>))
    requires
        entries@.len() == parents@.len(),
    ensures
        r.0@.len() == r.1@.len(),
        placed_v(r.0@, r.1@) == dedup(evs(entries@), parents_v(parents@)),
        forall|g: int| 0 <= g < r.0@.len() ==> (#[trigger] r.0@[g]).path@ == distinct_keys(entry_paths(evs(entries@)))[g],
{
    let ghost es = evs(entries@);
    let ghost keys = entry_paths(es);
    let mut paths: Vec<String> = Vec::new();
    let mut i: usize = 0;
    while i < entries.len()
        invariant
            i <= entries@.len(),
            keys == entry_paths(evs(entries@)),
            texts(paths@) == keys.take(i as int),
        decreases entries@.len() - i,
    {
        let ghost prev = texts(paths@);
        assert(keys[i as int] == entries@[i as int].path@);
        paths.push(entries[i].path.clone());
        assert(texts(paths@) =~= prev.push(entries@[i as int].path@));
        i = i + 1;
        assert(texts(paths@) =~= keys.take(i as int));
    }
    assert(texts(paths@) =~= keys);
    let gs = group_text(&paths);
    let ghost dk = distinct_keys(keys);
    let ghost want = dedup(es, parents_v(parents@));
    let mut dent: Vec<FileEntry> = Vec::new();
    let mut dpar: Vec<Option<String>> = Vec::new();
    let mut g: usize = 0;
    assert(int_groups(gs@).len() == gs@.len());
    while g < gs.len()
        invariant
            g <= gs@.len(),
            int_groups(gs@) == groups_of(keys),
            gs@.len() == dk.len(),
            dk == distinct_keys(keys),
            keys == entry_paths(es),
            es == evs(entries@),
            keys.len() == entries@.len(),
            entries@.len() == parents@.len(),
            want == dedup(es, parents_v(parents@)),
            dent@.len() == g,
            dpar@.len() == g,
            placed_v(dent@, dpar@) == want.take(g as int),
            forall|h: int| 0 <= h < g ==> (#[trigger] dent@[h]).path@ == dk[h],
        decreases gs@.len() - g,
    {
        proof {
            let k = dk[g as int];
            assert(int_groups(gs@)[g as int] == positions_of(keys, k));
            assert(int_groups(gs@)[g as int] == ints(gs@[g as int]@));
            lemma_distinct_contains(keys, k);
            assert(dk.contains(k));
            lemma_positions_present(keys, k);
            lemma_positions_hold(keys, k);
        }
        let n = gs[g].len();
        let last = gs[g][n - 1];
        proof {
            let pk = positions_of(keys, dk[g as int]);
            assert(ints(gs@[g as int]@)[n - 1] == last as int);
            assert(pk.last() == last as int);
            assert(0 <= pk[pk.len() - 1] < keys.len());
            assert(keys[last as int] == dk[g as int]);
            assert(want[g as int] == (es[last as int], parents_v(parents@)[last as int]));
        }
        let ghost before = placed_v(dent@, dpar@);
        dent.push(entries[last].copy());
        dpar.push(copy_opt(&parents[last]));
        proof {
            assert(placed_v(dent@, dpar@) =~= before.push(want[g as int]));
            assert(want.take(g + 1) =~= want.take(g as int).push(want[g as int]));
        }
        g = g + 1;
    }
    assert(want.len() == gs@.len());
    assert(want.take(g as int) =~= want);
    (dent, dpar)
}

/// The tree built from `entries`, given the parent of each entry's path
/// (`parents[i]` for `entries[i]`); `None` where a total or the number of
/// nodes does not fit.
pub fn build_with_parents(entries: &Vec<FileEntry>, parents: &Vec<Option<String>>) -> (r: Option<ScanResult>)
    requires
        entries@.len() == parents@.len(),
    ensures
        built(evs(entries@), parents_v(parents@), r),
{
    if entries.len() == 0 {
        let root = TreeNode {
            entry: FileEntry {
                path: String::new(),
                name: String::new(),
                size: 0,
                modified: 0,
                node_type: NodeType::Dir,
                depth: 0,
            },
            children: Vec::new(),
            total_size: 0,
        };
        return Some(ScanResult { root, total_size: 0, entry_count: 0 });
    }
    let ghost es = evs(entries@);
    let ghost ps = parents_v(parents@);
    let ghost keys = entry_paths(es);
    let ghost dk = distinct_keys(keys);
    let (dent, dpar) = place(entries, parents);
    let ghost d = placed_v(dent@, dpar@);
    let mut lens: Vec<usize> = Vec::new();
    let mut k: usize = 0;
    while k < dent.len()
        invariant
            k <= dent@.len(),
            lens@.len() == k,
            forall|j: int| 0 <= j < k ==> lens@[j] == #[trigger] dent@[j].path@.len(),
        decreases dent@.len() - k,
    {
        let cs = chars_of(dent[k].path.as_str());
        lens.push(cs.len());
        k = k + 1;
    }
    let m = root_index(entries);
    let mut g: usize = 0;
    let mut found = false;
    proof {
        assert(keys[m as int] == root_path(es));
        lemma_distinct_contains(keys, root_path(es));
        assert(dk.len() == dent@.len()) by {
            assert(groups_of(keys).len() == dk.len());
        }
    }
    while g < dent.len() && !found
        invariant
            g <= dent@.len(),
            found ==> g < dent@.len() && dent@[g as int].path@ == root_path(es),
            !found ==> forall|h: int| 0 <= h < g ==> (#[trigger] dent@[h]).path@ != root_path(es),
            es == evs(entries@),
            m < entries@.len(),
            entries@[m as int].path@ == root_path(es),
        decreases dent@.len() - g, if found { 0int } else { 1int },
    {
        if str_eq(dent[g].path.as_str(), entries[m].path.as_str()) {
            found = true;
        } else {
            g = g + 1;
        }
    }
    if !found {
        proof {
            let w = choose|w: int| 0 <= w < dk.len() && dk[w] == root_path(es);
            assert(dent@[w].path@ == dk[w]);
            assert(false);
        }
        return None;
    }
    proof {
        lemma_distinct_unique(keys);
        assert(dent@[g as int].path@ == dk[g as int]);
        let c = choose|c: int| 0 <= c < dk.len() && dk[c] == root_path(es);
        assert(c == g as int);
        assert(scan_tree(es, ps) == node_tree(d, g as int));
    }
    match build_node(&dent, &dpar, &lens, g, Ghost(d)) {
        None => None,
        Some(root) => match count_nodes(&root) {
            None => None,
            Some(count) => {
                let total = root.total_size;
                Some(ScanResult { root, total_size: total, entry_count: count })
            },
        },
    }
}

/// The parents of the paths of entries, in order.
fn parents_of(entries: &Vec<FileEntry>) -> (r: Vec<Option<String>>)
    ensures
        r@.len() == entries@.len(),
        parents_v(r@) == named_parents(evs(entries@)),
{
    let mut out: Vec<Option<String>> = Vec::new();
    let mut i: usize = 0;
    while i < entries.len()
        invariant
            i <= entries@.len(),
            parents_v(out@) == named_parents(evs(entries@)).take(i as int),
            out@.len() == i,
        decreases entries@.len() - i,
    {
        let ghost prev = parents_v(out@);
        let p = parent_of(entries[i].path.as_str());
        assert(opt_text(p) == path_parent(entries@[i as int].path@));
        assert(named_parents(evs(entries@))[i as int] == path_parent(entries@[i as int].path@));
        out.push(p);
        assert(parents_v(out@) =~= prev.push(opt_text(p)));
        i = i + 1;
        assert(parents_v(out@) =~= named_parents(evs(entries@)).take(i as int));
    }
    assert(named_parents(evs(entries@)).take(i as int) =~= named_parents(evs(entries@)));
    out
}

impl TreeBuilder {
    /// Builds a [`ScanResult`] from a flat list of entries. The entry
    /// with the shortest path becomes the root; every other entry is
    /// nested under its parent directory; children at every level are
    /// sorted by total size, largest first. Requires that every total and
    /// the number of nodes fit (see [`TreeBuilder::try_build`]).
    pub fn build(entries: Vec<FileEntry>) -> (r: ScanResult)
        requires
            built_fits(evs(entries@)),
        ensures
            built(evs(entries@), named_parents(evs(entries@)), Some(r)),
    {
        let parents = parents_of(&entries);
        match build_with_parents(&entries, &parents) {
            Some(r) => r,
            None => {
                proof {
                    assert(false);
                }
                TreeBuilder::empty()
            },
        }
    }

    /// Builds as [`TreeBuilder::build`] does, or gives `None` where a
    /// total or the number of nodes does not fit.
    pub fn try_build(entries: Vec<FileEntry>) -> (r: Option<ScanResult>)
        ensures
            built(evs(entries@), named_parents(evs(entries@)), r),
    {
        let parents = parents_of(&entries);
        match build_with_parents(&entries, &parents) {
            Some(_) => Some(TreeBuilder::build(entries)),
            None => None,
        }
    }

    fn empty() -> (r: ScanResult)
        ensures
            empty_result(r),
    {
        let root = TreeNode {
            entry: FileEntry {
                path: String::new(),
                name: String::new(),
                size: 0,
                modified: 0,
                node_type: NodeType::Dir,
                depth: 0,
            },
            children: Vec::new(),
            total_size: 0,
        };
        ScanResult { root, total_size: 0, entry_count: 0 }
    }
}

/// Every total of the tree built from `es`, and its number of nodes, fit.
pub open spec fn built_fits(es: Seq<EntryV>) -> bool {
    es.len() > 0 ==> {
        let t = scan_tree(es, named_parents(es));
        tree_fits(t) && tree_count(t) <= usize::MAX
    }
}

} // verus!
