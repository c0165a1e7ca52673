//! A whole scanned tree, with traversal, grouping by extension and the
//! largest entries.
use vstd::prelude::*;
use std::collections::HashMap;
use super::node::FileNode;
use crate::paths::path_extension;
use crate::sorting::{key_views, sort_by_keys, stably_sorted, KeyV, SortKey};
use crate::sums::{lemma_sum_elem_le, sum_nat};
use crate::text::{ascii_lower_seq, ascii_lowercase_chars, chars_equal, chars_of, string_from_chars};

verus! {

/// A tree rooted at one directory, with its totals.
#[derive(Debug)]
pub struct FileTree {
    pub root: FileNode,
    pub total_size: u64,
    pub file_count: usize,
    pub dir_count: usize,
}

/// The entries of the tree at `n` in depth-first pre-order.
pub open spec fn preorder(n: FileNode) -> Seq<FileNode>
    decreases n, 1nat, 0nat,
{
    seq![n] + preorder_children(n, n.children@.len() as nat)
}

/// The pre-orders of the first `k` children of `n`, concatenated.
pub open spec fn preorder_children(n: FileNode, k: nat) -> Seq<FileNode>
    decreases n, 0nat, k,
{
    if k == 0 || k > n.children@.len() {
        Seq::empty()
    } else {
        preorder_children(n, (k - 1) as nat) + preorder(n.children@[k - 1])
    }
}

/// Every entry of the tree at `n` has a total size at most that of `n`.
pub open spec fn sizes_bounded(n: FileNode) -> bool {
    forall|i: int| 0 <= i < preorder(n).len() ==> (#[trigger] preorder(n)[i]).tsize() <= n.tsize()
}

/// The grouping key of an entry: its extension in ASCII lower case, or
/// `(no ext)`.
pub open spec fn ext_key(n: FileNode) -> Seq<char> {
    match path_extension(n.path@) {
        Some(e) => ascii_lower_seq(e),
        None => "(no ext)"@,
    }
}

/// The dereferenced entries of a sequence of references.
pub open spec fn derefs(v: Seq<&FileNode>) -> Seq<FileNode> {
    v.map_values(|r: &FileNode| *r)
}

/// The entries of `s` whose grouping key is `k`, in order.
pub open spec fn keyed(s: Seq<FileNode>, k: Seq<char>) -> Seq<FileNode>
    decreases s.len(),
{
    if s.len() == 0 {
        Seq::empty()
    } else {
        let rest = keyed(s.drop_last(), k);
        if ext_key(s.last()) == k {
            rest.push(s.last())
        } else {
            rest
        }
    }
}

proof fn lemma_keyed_step(s: Seq<FileNode>, i: int, k: Seq<char>)
    requires
        0 <= i < s.len(),
    ensures
        keyed(s.take(i + 1), k) == if ext_key(s[i]) == k {
            keyed(s.take(i), k).push(s[i])
        } else {
            keyed(s.take(i), k)
        },
{
    assert(s.take(i + 1).drop_last() =~= s.take(i));
    assert(s.take(i + 1).last() == s[i]);
}

proof fn lemma_keyed_none(s: Seq<FileNode>, k: Seq<char>)
    requires
        forall|j: int| 0 <= j < s.len() ==> ext_key(#[trigger] s[j]) != k,
    ensures
        keyed(s, k) == Seq::<FileNode>::empty(),
    decreases s.len(),
{
    if s.len() > 0 {
        assert forall|j: int| 0 <= j < s.drop_last().len() implies ext_key(#[trigger] s.drop_last()[j]) != k by {
            assert(s.drop_last()[j] == s[j]);
        }
        lemma_keyed_none(s.drop_last(), k);
    }
}

proof fn lemma_child_tsize_le(n: FileNode, i: int)
    requires
        0 <= i < n.children@.len(),
    ensures
        n.children@[i].tsize() <= n.tsize(),
{
    lemma_sum_elem_le(n.child_tsizes(), i);
}

fn flatten_dfs<'a>(node: &'a FileNode, out: &mut Vec<&'a FileNode>)
    ensures
        derefs(final(out)@) == derefs(old(out)@) + preorder(*node),
    decreases node,
{
    let ghost start = derefs(out@);
    out.push(node);
    assert(derefs(out@) =~= start + seq![*node]);
    let mut k: usize = 0;
    while k < node.children.len()
        invariant
            k <= node.children@.len(),
            derefs(out@) == start + seq![*node] + preorder_children(*node, k as nat),
        decreases node.children@.len() - k,
    {
        flatten_dfs(&node.children[k], out);
        k = k + 1;
        assert(derefs(out@) =~= start + seq![*node] + preorder_children(*node, k as nat));
    }
}

impl FileTree {
    /// All entries in depth-first pre-order.
    pub fn flatten(&self) -> (r: Vec<&FileNode>)
        ensures
            derefs(r@) == preorder(self.root),
    {
        let mut out: Vec<&FileNode> = Vec::new();
        flatten_dfs(&self.root, &mut out);
        assert(derefs(out@) =~= preorder(self.root));
        out
    }

    /// The entries grouped by [`ext_key`], groups in order of first
    /// appearance and entries in pre-order within a group.
    pub fn ext_groups(&self) -> (r: Vec<(String, Vec<&FileNode>)>)
        ensures
            forall|g: int| 0 <= g < r@.len() ==> (#[trigger] r@[g]).1@.len() > 0,
            forall|g: int, i: int|
                0 <= g < r@.len() && 0 <= i < r@[g].1@.len() ==> ext_key(*r@[g].1@[i]) == r@[g].0@,
            forall|g1: int, g2: int| 0 <= g1 < g2 < r@.len() ==> r@[g1].0@ != r@[g2].0@,
            forall|i: int|
                0 <= i < preorder(self.root).len() ==> group_keys(r@).contains(
                    ext_key(#[trigger] preorder(self.root)[i]),
                ),
            forall|g: int| 0 <= g < r@.len() ==> derefs((#[trigger] r@[g]).1@) == keyed(preorder(self.root), r@[g].0@),
    {
        let nodes = self.flatten();
        let mut groups: Vec<(String, Vec<&FileNode>)> = Vec::new();
        let mut keys: Vec<Vec<char>> = Vec::new();
        let mut i: usize = 0;
        while i < nodes.len()
            invariant
                i <= nodes@.len(),
                derefs(nodes@) == preorder(self.root),
                keys@.len() == groups@.len(),
                forall|g: int| 0 <= g < groups@.len() ==> (#[trigger] groups@[g]).1@.len() > 0,
                forall|g: int| 0 <= g < groups@.len() ==> (#[trigger] keys@[g])@ == groups@[g].0@,
                forall|g: int, j: int|
                    0 <= g < groups@.len() && 0 <= j < groups@[g].1@.len() ==> ext_key(
                        *groups@[g].1@[j],
                    ) == groups@[g].0@,
                forall|g1: int, g2: int| 0 <= g1 < g2 < groups@.len() ==> groups@[g1].0@ != groups@[g2].0@,
                forall|j: int|
                    0 <= j < i ==> group_keys(groups@).contains(ext_key(*#[trigger] nodes@[j])),
                forall|g: int|
                    0 <= g < groups@.len() ==> derefs((#[trigger] groups@[g]).1@) == keyed(
                        preorder(self.root).take(i as int),
                        groups@[g].0@,
                    ),
            decreases nodes@.len() - i,
        {
            let node = nodes[i];
            let key = match node.extension() {
                Some(e) => ascii_lowercase_chars(e),
                None => chars_of("(no ext)"),
            };
            let ghost old_groups = groups@;
            assert(derefs(nodes@)[i as int] == *node);
            match find_key(&keys, &key) {
                Some(g) => {
                    let mut entry = groups.remove(g);
                    let ghost old_members = entry.1@;
                    entry.1.push(node);
                    groups.insert(g, entry);
                    proof {
                        let pre = preorder(self.root);
                        assert(groups@[g as int].1@ == old_members.push(node));
                        assert(old_members == old_groups[g as int].1@);
                        assert forall|h: int| 0 <= h < groups@.len() implies derefs((#[trigger] groups@[h]).1@)
                            == keyed(pre.take(i + 1), groups@[h].0@) by {
                            lemma_keyed_step(pre, i as int, groups@[h].0@);
                            if h == g {
                                assert(derefs(groups@[h].1@) =~= derefs(old_groups[h].1@).push(*node));
                                assert(groups@[h].0@ == key@);
                            } else {
                                assert(groups@[h] == old_groups[h]);
                                assert(keys@[h]@ == old_groups[h].0@);
                                assert(keys@[g as int]@ == old_groups[g as int].0@);
                                if h < g {
                                    assert(old_groups[h].0@ != old_groups[g as int].0@);
                                } else {
                                    assert(old_groups[g as int].0@ != old_groups[h].0@);
                                }
                            }
                        }
                        assert(groups@[g as int].0 == old_groups[g as int].0);
                        assert(groups@ == old_groups.update(g as int, groups@[g as int]));
                        assert(group_keys(groups@) =~= group_keys(old_groups));
                        assert(group_keys(groups@)[g as int] == key@);
                        assert(key@ == ext_key(*nodes@[i as int]));
                    }
                },
                None => {
                    let k = string_from_chars(&key);
                    let mut v: Vec<&FileNode> = Vec::new();
                    v.push(node);
                    let ghost old_keys = keys@;
                    groups.push((k, v));
                    keys.push(key);
                    proof {
                        let pre = preorder(self.root);
                        assert forall|j: int| 0 <= j < pre.take(i as int).len() implies ext_key(
                            #[trigger] pre.take(i as int)[j],
                        ) != key@ by {
                            assert(pre.take(i as int)[j] == *nodes@[j]);
                            assert(group_keys(old_groups).contains(ext_key(*nodes@[j])));
                            let w = choose|w: int| 0 <= w < group_keys(old_groups).len() && group_keys(old_groups)[w] == ext_key(*nodes@[j]);
                            assert(old_keys[w]@ == old_groups[w].0@);
                        }
                        lemma_keyed_none(pre.take(i as int), key@);
                        assert forall|h: int| 0 <= h < groups@.len() implies derefs((#[trigger] groups@[h]).1@)
                            == keyed(pre.take(i + 1), groups@[h].0@) by {
                            lemma_keyed_step(pre, i as int, groups@[h].0@);
                            if h == old_groups.len() {
                                assert(derefs(groups@[h].1@) =~= seq![*node]);
                                assert(groups@[h].0@ == key@);
                                assert(Seq::<FileNode>::empty().push(*node) =~= seq![*node]);
                            } else {
                                assert(groups@[h] == old_groups[h]);
                                assert(old_keys[h]@ == old_groups[h].0@);
                            }
                        }
                        assert(group_keys(groups@) =~= group_keys(old_groups).push(key@));
                        assert(group_keys(groups@)[old_groups.len() as int] == key@);
                        assert(key@ == ext_key(*nodes@[i as int]));
                        assert forall|g1: int, g2: int| 0 <= g1 < g2 < groups@.len() implies groups@[g1].0@
                            != groups@[g2].0@ by {
                            if g2 == old_groups.len() {
                                assert(keys@[g1]@ == old_groups[g1].0@);
                            }
                        }
                        assert forall|j: int| 0 <= j < i implies group_keys(groups@).contains(
                            ext_key(*#[trigger] nodes@[j]),
                        ) by {
                            assert(group_keys(old_groups).contains(ext_key(*nodes@[j])));
                            let w = choose|w: int| 0 <= w < group_keys(old_groups).len() && group_keys(old_groups)[w] == ext_key(*nodes@[j]);
                            assert(group_keys(groups@)[w] == ext_key(*nodes@[j]));
                        }
                    }
                },
            }
            i = i + 1;
        }
        assert(derefs(nodes@).len() == nodes@.len());
        assert(preorder(self.root).take(nodes@.len() as int) =~= preorder(self.root));
        groups
    }

    /// The entries grouped by extension in ASCII lower case (`(no ext)`
    /// for entries without one): a key for each grouping key met, mapped
    /// to the entries with that key in pre-order. The map's contents are
    /// stated under vstd's model of hash-map keys for `String`, which vstd
    /// gives for primitive keys only and leaves open for `String`.
    pub fn by_extension(&self) -> (r: HashMap<String, Vec<&FileNode>>)
        ensures
            vstd::std_specs::hash::obeys_key_model::<String>() ==> {
                &&& forall|k: String| #[trigger] r@.contains_key(k) ==> r@[k]@.len() > 0 && derefs(r@[k]@)
                    == keyed(preorder(self.root), k@)
                &&& forall|i: int|
                    0 <= i < preorder(self.root).len() ==> exists|k: String| #[trigger] r@.contains_key(k) && k@
                        == ext_key(#[trigger] preorder(self.root)[i])
            },
    {
        let mut groups = self.ext_groups();
        let ghost gs = groups@;
        let ghost pre = preorder(self.root);
        let mut map: HashMap<String, Vec<&FileNode>> = HashMap::new();
        proof {
            broadcast use vstd::std_specs::hash::axiom_random_state_builds_valid_hashers;
        }
        while groups.len() > 0
            invariant
                groups@.len() <= gs.len(),
                groups@ == gs.take(groups@.len() as int),
                vstd::std_specs::hash::builds_valid_hashers::<std::hash::RandomState>(),
                forall|g1: int, g2: int| 0 <= g1 < g2 < gs.len() ==> gs[g1].0@ != gs[g2].0@,
                pre == preorder(self.root),
                forall|g: int|
                    0 <= g < gs.len() ==> (#[trigger] gs[g]).1@.len() > 0 && derefs(gs[g].1@) == keyed(pre, gs[g].0@),
                forall|i: int| 0 <= i < pre.len() ==> group_keys(gs).contains(ext_key(#[trigger] pre[i])),
                vstd::std_specs::hash::obeys_key_model::<String>() ==> forall|k: String|
                    #[trigger] map@.contains_key(k) ==> exists|g: int|
                        groups@.len() <= g < gs.len() && #[trigger] gs[g].0 == k,
                vstd::std_specs::hash::obeys_key_model::<String>() ==> forall|g: int|
                    groups@.len() <= g < gs.len() ==> map@.contains_key(#[trigger] gs[g].0) && map@[gs[g].0]
                        == gs[g].1,
            decreases groups@.len(),
        {
            let ghost before = map@;
            let ghost n = groups@.len() - 1;
            match groups.pop() {
                Some(entry) => {
                    assert(entry == gs[n]);
                    map.insert(entry.0, entry.1);
                    proof {
                        assert(groups@ =~= gs.take(groups@.len() as int));
                        if vstd::std_specs::hash::obeys_key_model::<String>() {
                            assert forall|g: int| groups@.len() <= g < gs.len() implies map@.contains_key(
                                #[trigger] gs[g].0,
                            ) && map@[gs[g].0] == gs[g].1 by {
                                if g != n {
                                    assert(gs[n].0@ != gs[g].0@);
                                }
                            }
                            assert forall|k: String| #[trigger] map@.contains_key(k) implies exists|g: int|
                                groups@.len() <= g < gs.len() && #[trigger] gs[g].0 == k by {
                                if k != gs[n].0 {
                                    assert(before.contains_key(k));
                                }
                            }
                        }
                    }
                },
                None => {},
            }
        }
        proof {
            if vstd::std_specs::hash::obeys_key_model::<String>() {
                assert forall|k: String| #[trigger] map@.contains_key(k) implies map@[k]@.len() > 0 && derefs(
                    map@[k]@,
                ) == keyed(pre, k@) by {
                    let g = choose|g: int| 0 <= g < gs.len() && #[trigger] gs[g].0 == k;
                    assert(map@[gs[g].0] == gs[g].1);
                }
                assert forall|i: int| 0 <= i < pre.len() implies exists|k: String|
                    #[trigger] map@.contains_key(k) && k@ == ext_key(#[trigger] pre[i]) by {
                    assert(group_keys(gs).contains(ext_key(pre[i])));
                    let w = choose|w: int| 0 <= w < group_keys(gs).len() && group_keys(gs)[w] == ext_key(pre[i]);
                    assert(map@.contains_key(gs[w].0));
                }
            }
        }
        map
    }

    /// The `n` largest entries by total size, largest first (entries of
    /// equal size in pre-order).
    pub fn top_n(&self, n: usize) -> (r: Vec<&FileNode>)
        requires
            self.root.tsize() <= u64::MAX,
        ensures
            exists|sorted: Seq<FileNode>|
                stably_sorted(
                    preorder(self.root),
                    tsize_keys(preorder(self.root)),
                    true,
                    sorted,
                ) && derefs(r@) == sorted.take(
                    if n < sorted.len() {
                        n as int
                    } else {
                        sorted.len() as int
                    },
                ),
    {
        let nodes = self.flatten();
        proof {
            lemma_sizes_bounded(self.root);
        }
        let mut keys: Vec<SortKey> = Vec::new();
        let mut i: usize = 0;
        while i < nodes.len()
            invariant
                i <= nodes@.len(),
                derefs(nodes@) == preorder(self.root),
                self.root.tsize() <= u64::MAX,
                sizes_bounded(self.root),
                keys@.len() == i,
                forall|j: int| 0 <= j < i ==> (#[trigger] keys@[j]).key_view() == KeyV::Num(
                    nodes@[j].tsize(),
                ),
            decreases nodes@.len() - i,
        {
            assert(derefs(nodes@)[i as int] == *nodes@[i as int]);
            let s = nodes[i].total_size();
            keys.push(SortKey::Num(s));
            i = i + 1;
        }
        assert(key_views(keys@) =~= tsize_keys(preorder(self.root)));
        let (mut sorted, Ghost(p)) = sort_by_keys(nodes, keys, true);
        let ghost full = derefs(sorted@);
        proof {
            assert(stably_sorted(preorder(self.root), tsize_keys(preorder(self.root)), true, full)) by {
                assert(crate::sorting::reorders(preorder(self.root), full, p));
            }
        }
        if n < sorted.len() {
            sorted.truncate(n);
        }
        assert(derefs(sorted@) =~= full.take(sorted@.len() as int));
        sorted
    }
}

/// The keys of groups.
pub open spec fn group_keys(groups: Seq<(String, Vec<&FileNode>)>) -> Seq<Seq<char>> {
    groups.map_values(|g: (String, Vec<&FileNode>)| g.0@)
}

/// The total sizes of entries, as numeric sort keys.
pub open spec fn tsize_keys(nodes: Seq<FileNode>) -> Seq<KeyV> {
    nodes.map_values(|n: FileNode| KeyV::Num(n.tsize()))
}

fn find_key(keys: &Vec<Vec<char>>, key: &Vec<char>) -> (r: Option<usize>)
    ensures
        match r {
            Some(g) => g < keys@.len() && keys@[g as int]@ == key@,
            None => forall|g: int| 0 <= g < keys@.len() ==> (#[trigger] keys@[g])@ != key@,
        },
{
    let mut g: usize = 0;
    while g < keys.len()
        invariant
            g <= keys@.len(),
            forall|h: int| 0 <= h < g ==> (#[trigger] keys@[h])@ != key@,
        decreases keys@.len() - g,
    {
        if chars_equal(&keys[g], key) {
            return Some(g);
        }
        g = g + 1;
    }
    None
}

proof fn lemma_sizes_bounded(n: FileNode)
    ensures
        sizes_bounded(n),
    decreases n, 1nat, 0nat,
{
    lemma_sizes_bounded_children(n, n.children@.len() as nat);
    assert forall|i: int| 0 <= i < preorder(n).len() implies (#[trigger] preorder(n)[i]).tsize()
        <= n.tsize() by {
        if i > 0 {
            assert(preorder(n)[i] == preorder_children(n, n.children@.len() as nat)[i - 1]);
        }
    }
}

proof fn lemma_sizes_bounded_children(n: FileNode, k: nat)
    requires
        k <= n.children@.len(),
    ensures
        forall|i: int|
            0 <= i < preorder_children(n, k).len() ==> (#[trigger] preorder_children(n, k)[i]).tsize()
                <= n.tsize(),
    decreases n, 0nat, k,
{
    if k > 0 {
        lemma_sizes_bounded_children(n, (k - 1) as nat);
        let c = n.children@[k - 1];
        lemma_sizes_bounded(c);
        lemma_child_tsize_le(n, k - 1);
        let a = preorder_children(n, (k - 1) as nat);
        assert forall|i: int| 0 <= i < preorder_children(n, k).len() implies (#[trigger] preorder_children(
            n,
            k,
        )[i]).tsize() <= n.tsize() by {
            if i >= a.len() {
                assert(preorder_children(n, k)[i] == preorder(c)[i - a.len()]);
            } else {
                assert(preorder_children(n, k)[i] == a[i]);
            }
        }
    }
}

} // verus!
