//! A tree folded from the flat list a directory walk produces: entries
//! are grouped by the parent of their path relative to the root, each
//! directory takes the group of its own relative path (once: a group
//! taken is gone), children go in path order, and every directory with
//! children is then sized as the sum of its children.
use vstd::prelude::*;
use crate::domain::{FileNode, FileNodeV, FileType};
use crate::paths::{parent_of, path_parent};
use crate::text::str_eq;

verus! {

/// What `Path::lt` gives for two paths with these characters: whether the
/// first comes before the second, component by component.
pub uninterp spec fn path_before(a: Seq<char>, b: Seq<char>) -> bool;

/// Whether path `a` comes before path `b` (`Path < Path`).
#[verifier::external_body]
fn path_lt(a: &str, b: &str) -> (r: bool)
    ensures
        r == path_before(a@, b@),
{
    std::path::Path::new(a) < std::path::Path::new(b)
}

/// One entry of a walk.
#[derive(Debug)]
pub struct WalkEntry {
    /// Full path.
    pub path: String,
    /// Path relative to the root (empty for the root itself).
    pub rel: String,
    pub size: u64,
    /// Last modification, in Unix seconds.
    pub modified: u64,
    pub is_dir: bool,
    pub file_type: FileType,
}

/// The value of a [`WalkEntry`].
pub struct WalkV {
    pub path: Seq<char>,
    pub rel: Seq<char>,
    pub size: u64,
    pub modified: u64,
    pub is_dir: bool,
    pub file_type: FileType,
}

impl WalkEntry {
    /// The value of this entry.
    pub open spec fn wv(&self) -> WalkV {
        WalkV {
            path: self.path@,
            rel: self.rel@,
            size: self.size,
            modified: self.modified,
            is_dir: self.is_dir,
            file_type: self.file_type,
        }
    }

    fn copy(&self) -> (r: WalkEntry)
        ensures
            r.wv() == self.wv(),
    {
        WalkEntry {
            path: self.path.clone(),
            rel: self.rel.clone(),
            size: self.size,
            modified: self.modified,
            is_dir: self.is_dir,
            file_type: self.file_type,
        }
    }
}

/// The values of entries.
pub open spec fn wvs(v: Seq<WalkEntry>) -> Seq<WalkV> {
    v.map_values(|e: WalkEntry| e.wv())
}

/// The grouping key of an entry: the parent of its relative path, empty
/// when it has none.
pub open spec fn parent_key(p: Option<Seq<char>>) -> Seq<char> {
    match p {
        Some(q) => q,
        None => Seq::empty(),
    }
}

/// A group: a parent key and its entries in walk order.
pub type Group = (Seq<char>, Seq<WalkV>);

/// The position of the group with key `k`, if any.
pub open spec fn find_group(gs: Seq<Group>, k: Seq<char>) -> Option<int>
    decreases gs.len(),
{
    if gs.len() == 0 {
        None
    } else if gs.last().0 == k {
        Some(gs.len() - 1)
    } else {
        find_group(gs.drop_last(), k)
    }
}

/// The entries grouped by key: one group per distinct key, in order of
/// first appearance, entries in walk order.
pub open spec fn group_entries(es: Seq<WalkV>, keys: Seq<Seq<char>>) -> Seq<Group>
    decreases es.len(),
{
    if es.len() == 0 || keys.len() == 0 {
        Seq::empty()
    } else {
        let gs = group_entries(es.drop_last(), keys.drop_last());
        match find_group(gs, keys.last()) {
            Some(i) => gs.update(i, (gs[i].0, gs[i].1.push(es.last()))),
            None => gs.push((keys.last(), seq![es.last()])),
        }
    }
}

/// Where `x` goes in `s` (sorted by relative path) so that it follows
/// every entry not after it: scanning back from position `k`.
pub open spec fn rel_pos(s: Seq<WalkV>, x: WalkV, k: nat) -> nat
    decreases k,
{
    if k > 0 && k <= s.len() && path_before(x.rel, s[k - 1].rel) {
        rel_pos(s, x, (k - 1) as nat)
    } else {
        k
    }
}

/// `s` sorted by relative path, stably (insertion from the back).
pub open spec fn by_rel(s: Seq<WalkV>) -> Seq<WalkV>
    decreases s.len(),
{
    if s.len() == 0 {
        Seq::empty()
    } else {
        let r = by_rel(s.drop_last());
        r.insert(rel_pos(r, s.last(), r.len()) as int, s.last())
    }
}

/// The children of the directory with relative path `parent`, given the
/// groups not yet taken, and the groups left after: the group of
/// `parent` is taken (none when it is gone), its entries go in path
/// order, the root's own entry is left out, and directories take their
/// own groups in turn. `fuel` bounds the nesting; it is never the limit
/// when it is at least the number of groups.
pub open spec fn build_children(gs: Seq<Group>, parent: Seq<char>, fuel: nat) -> (Seq<FileNodeV>, Seq<Group>)
    decreases fuel, 1nat, 0nat,
{
    if fuel == 0 {
        (Seq::empty(), gs)
    } else {
        match find_group(gs, parent) {
            None => (Seq::empty(), gs),
            Some(i) => {
                let members = gs[i].1;
                let rest = gs.remove(i);
                fold_children(by_rel(members), 0, rest, (fuel - 1) as nat)
            },
        }
    }
}

/// The nodes of `sorted[k..]` with the groups `gs` not yet taken.
pub open spec fn fold_children(sorted: Seq<WalkV>, k: nat, gs: Seq<Group>, fuel: nat) -> (Seq<FileNodeV>, Seq<Group>)
    decreases fuel, 2nat, sorted.len() - k,
{
    if k >= sorted.len() {
        (Seq::empty(), gs)
    } else {
        let e = sorted[k as int];
        if e.rel.len() == 0 {
            fold_children(sorted, k + 1, gs, fuel)
        } else {
            let sub = if e.is_dir {
                build_children(gs, e.rel, fuel)
            } else {
                (Seq::empty(), gs)
            };
            let node = FileNodeV { path: e.path, size: e.size, modified: e.modified, file_type: e.file_type, children: sub.0 };
            let rest = fold_children(sorted, k + 1, sub.1, fuel);
            (seq![node] + rest.0, rest.1)
        }
    }
}

/// The position of the first entry with an empty relative path.
pub open spec fn root_entry(es: Seq<WalkV>) -> Option<int>
    decreases es.len(),
{
    if es.len() == 0 {
        None
    } else {
        match root_entry(es.drop_last()) {
            Some(i) => Some(i),
            None => if es.last().rel.len() == 0 {
                Some(es.len() - 1)
            } else {
                None
            },
        }
    }
}

/// The tree before sizing: the root directory (with the root entry's
/// size and time, or zeros) and the children of the empty relative path.
pub open spec fn raw_tree(root: Seq<char>, es: Seq<WalkV>, parents: Seq<Option<Seq<char>>>) -> FileNodeV {
    let gs = group_entries(es, parents.map_values(|p: Option<Seq<char>>| parent_key(p)));
    let (size, modified) = match root_entry(es) {
        Some(i) => (es[i].size, es[i].modified),
        None => (0u64, 0u64),
    };
    FileNodeV {
        path: root,
        size,
        modified,
        file_type: FileType::Directory,
        children: build_children(gs, Seq::empty(), gs.len()).0,
    }
}

/// The tree with every node that has children sized as the sum of its
/// sized children (leaves keep their size); the sum is exact, so it may
/// exceed 64 bits.
pub open spec fn sized(n: FileNodeV) -> (FileNodeV, nat)
    decreases n, 1nat,
{
    if n.children.len() == 0 {
        (n, n.size as nat)
    } else {
        let kids = sized_list(n, n.children.len() as nat);
        (FileNodeV { size: kids.1 as u64, children: kids.0, ..n }, kids.1)
    }
}

/// The sized first `k` children of `n`, and the sum of their sizes.
pub open spec fn sized_list(n: FileNodeV, k: nat) -> (Seq<FileNodeV>, nat)
    decreases n, 0nat, k,
{
    if k == 0 || k > n.children.len() {
        (Seq::empty(), 0)
    } else {
        let r = sized_list(n, (k - 1) as nat);
        let c = sized(n.children[k - 1]);
        (r.0.push(c.0), r.1 + c.1)
    }
}

/// Every size the sizing computes fits in 64 bits.
pub open spec fn sizes_fit(n: FileNodeV) -> bool
    decreases n, 1nat,
{
    &&& sized(n).1 <= u64::MAX
    &&& forall|i: int| 0 <= i < n.children.len() ==> sizes_fit(#[trigger] n.children[i])
}

/// The values of groups held in vectors.
pub open spec fn groups_v(v: Seq<(String, Vec<WalkEntry>)>) -> Seq<Group> {
    v.map_values(|g: (String, Vec<WalkEntry>)| (g.0@, wvs(g.1@)))
}

/// The texts of optional parents, as grouping keys.
pub open spec fn keys_of(ps: Seq<Option<Seq<char>>>) -> Seq<Seq<char>> {
    ps.map_values(|p: Option<Seq<char>>| parent_key(p))
}

/// The values of optional texts.
pub open spec fn opt_texts(v: Seq<Option<String>>) -> Seq<Option<Seq<char>>> {
    v.map_values(
        |o: Option<String>|
            match o {
                Some(s) => Some(s@),
                None => None,
            },
    )
}

fn find_back(gs: &Vec<(String, Vec<WalkEntry>)>, k: &str) -> (r: Option<usize>)
    ensures
        match r {
            Some(i) => find_group(groups_v(gs@), k@) == Some(i as int) && i < gs@.len(),
            None => find_group(groups_v(gs@), k@) is None,
        },
{
    let ghost gv = groups_v(gs@);
    let mut n = gs.len();
    assert(gv.take(n as int) =~= gv);
    while n > 0
        invariant
            n <= gs@.len(),
            gv == groups_v(gs@),
            find_group(gv, k@) == find_group(gv.take(n as int), k@),
        decreases n,
    {
        assert(gv.take(n as int).drop_last() =~= gv.take(n - 1));
        assert(gv.take(n as int).last() == gv[n - 1]);
        if str_eq(gs[n - 1].0.as_str(), k) {
            return Some(n - 1);
        }
        n = n - 1;
    }
    None
}

fn group_walk(entries: &Vec<WalkEntry>, keys: &Vec<String>) -> (r: Vec<(String, Vec<WalkEntry>)>)
    requires
        entries@.len() == keys@.len(),
    ensures
        groups_v(r@) == group_entries(wvs(entries@), keys@.map_values(|k: String| k@)),
{
    let ghost es = wvs(entries@);
    let ghost ks = keys@.map_values(|k: String| k@);
    let mut gs: Vec<(String, Vec<WalkEntry>)> = Vec::new();
    let mut i: usize = 0;
    while i < entries.len()
        invariant
            i <= entries@.len(),
            entries@.len() == keys@.len(),
            es == wvs(entries@),
            ks == keys@.map_values(|k: String| k@),
            groups_v(gs@) == group_entries(es.take(i as int), ks.take(i as int)),
        decreases entries@.len() - i,
    {
        let ghost before = groups_v(gs@);
        assert(es.take(i + 1).drop_last() =~= es.take(i as int));
        assert(ks.take(i + 1).drop_last() =~= ks.take(i as int));
        assert(es.take(i + 1).last() == entries@[i as int].wv());
        assert(ks.take(i + 1).last() == keys@[i as int]@);
        let e = entries[i].copy();
        match find_back(&gs, keys[i].as_str()) {
            Some(g) => {
                let mut entry = gs.remove(g);
                let ghost old_members = wvs(entry.1@);
                entry.1.push(e);
                assert(wvs(entry.1@) =~= old_members.push(entries@[i as int].wv()));
                gs.insert(g, entry);
                assert(groups_v(gs@) =~= before.update(g as int, (before[g as int].0, before[g as int].1.push(entries@[i as int].wv()))));
            },
            None => {
                let mut members: Vec<WalkEntry> = Vec::new();
                members.push(e);
                gs.push((keys[i].clone(), members));
                assert(wvs(members@) =~= seq![entries@[i as int].wv()]);
                assert(groups_v(gs@) =~= before.push((keys@[i as int]@, seq![entries@[i as int].wv()])));
            },
        }
        i = i + 1;
    }
    assert(es.take(i as int) =~= es);
    assert(ks.take(i as int) =~= ks);
    gs
}

fn sort_by_rel(items: Vec<WalkEntry>) -> (r: Vec<WalkEntry>)
    ensures
        wvs(r@) == by_rel(wvs(items@)),
{
    let ghost all = wvs(items@);
    let mut src = items;
    let mut out: Vec<WalkEntry> = Vec::new();
    let ghost mut k: int = 0;
    while src.len() > 0
        invariant
            0 <= k <= all.len(),
            wvs(src@) == all.skip(k),
            wvs(out@) == by_rel(all.take(k)),
        decreases src@.len(),
    {
        proof {
            assert(wvs(src@).len() == src@.len());
            assert(all.skip(k).len() == all.len() - k);
            assert(wvs(src@)[0] == src@[0].wv());
        }
        let ghost old_src = src@;
        let x = src.remove(0);
        proof {
            assert(src@ =~= old_src.subrange(1, old_src.len() as int));
            assert(x.wv() == all[k]);
            assert(all.take(k + 1).drop_last() =~= all.take(k));
            assert forall|m: int| 0 <= m < src@.len() implies #[trigger] wvs(src@)[m] == all.skip(k + 1)[m] by {
                assert(src@[m] == old_src[m + 1]);
                assert(wvs(old_src)[m + 1] == old_src[m + 1].wv());
            }
            assert(wvs(src@) =~= all.skip(k + 1));
        }
        let ghost rv = wvs(out@);
        let mut pos = out.len();
        while pos > 0 && path_lt(x.rel.as_str(), out[pos - 1].rel.as_str())
            invariant
                pos <= out@.len(),
                rv == wvs(out@),
                rel_pos(rv, x.wv(), out@.len() as nat) == rel_pos(rv, x.wv(), pos as nat),
            decreases pos,
        {
            assert(rv[pos - 1] == out@[pos - 1].wv());
            pos = pos - 1;
        }
        proof {
            if pos > 0 {
                assert(rv[pos - 1] == out@[pos - 1].wv());
            }
        }
        let ghost xv = x.wv();
        out.insert(pos, x);
        assert(wvs(out@) =~= rv.insert(pos as int, xv));
        proof {
            k = k + 1;
        }
    }
    assert(all.take(k) =~= all);
    out
}

fn build_children_exec(gs: &mut Vec<(String, Vec<WalkEntry>)>, parent: &str, fuel: usize) -> (r: Vec<FileNode>)
    ensures
        ({
            let b = build_children(groups_v(old(gs)@), parent@, fuel as nat);
            &&& views_of_nodes(r@) == b.0
            &&& groups_v(final(gs)@) == b.1
        }),
    decreases fuel,
{
    if fuel == 0 {
        return Vec::new();
    }
    let ghost g0 = groups_v(gs@);
    let idx = match find_back(gs, parent) {
        None => {
            return Vec::new();
        },
        Some(i) => i,
    };
    let (_key, members) = gs.remove(idx);
    assert(groups_v(gs@) =~= g0.remove(idx as int));
    assert(wvs(members@) == g0[idx as int].1);
    let sorted = sort_by_rel(members);
    let ghost sv = wvs(sorted@);
    let f1 = fuel - 1;
    let ghost target = fold_children(sv, 0, groups_v(gs@), f1 as nat);
    let mut out: Vec<FileNode> = Vec::new();
    let mut k: usize = 0;
    while k < sorted.len()
        invariant
            k <= sorted@.len(),
            sv == wvs(sorted@),
            f1 + 1 == fuel,
            views_of_nodes(out@) + fold_children(sv, k as nat, groups_v(gs@), f1 as nat).0 == target.0,
            fold_children(sv, k as nat, groups_v(gs@), f1 as nat).1 == target.1,
        decreases sorted@.len() - k,
    {
        let e = &sorted[k];
        assert(sv[k as int] == e.wv());
        let ghost gk = groups_v(gs@);
        if e.rel.unicode_len() == 0 {
            k = k + 1;
        } else {
            let kids = if e.is_dir {
                build_children_exec(gs, e.rel.as_str(), f1)
            } else {
                Vec::new()
            };
            let node = FileNode { path: e.path.clone(), size: e.size, modified: e.modified, file_type: e.file_type, children: kids };
            proof {
                let sub = if e.wv().is_dir {
                    build_children(gk, e.wv().rel, f1 as nat)
                } else {
                    (Seq::<FileNodeV>::empty(), gk)
                };
                assert(views_of_nodes(kids@) == sub.0);
                assert(node@.children =~= sub.0);
                let rest = fold_children(sv, (k + 1) as nat, sub.1, f1 as nat);
                assert(fold_children(sv, k as nat, gk, f1 as nat) == (seq![node@] + rest.0, rest.1));
                assert(views_of_nodes(out@.push(node)) =~= views_of_nodes(out@).push(node@));
                vstd::seq_lib::lemma_concat_associative(views_of_nodes(out@), seq![node@], rest.0);
                assert(views_of_nodes(out@).push(node@) =~= views_of_nodes(out@) + seq![node@]);
            }
            out.push(node);
            k = k + 1;
        }
    }
    assert(views_of_nodes(out@) + Seq::<FileNodeV>::empty() =~= views_of_nodes(out@));
    out
}

/// The values of nodes.
pub open spec fn views_of_nodes(v: Seq<FileNode>) -> Seq<FileNodeV> {
    v.map_values(|n: FileNode| n@)
}

proof fn lemma_sized_list_prefix(n: FileNodeV, k: nat, m: nat)
    requires
        k <= m <= n.children.len(),
    ensures
        sized_list(n, k).1 <= sized_list(n, m).1,
    decreases m - k,
{
    if k < m {
        lemma_sized_list_prefix(n, k, (m - 1) as nat);
    }
}

fn size_tree(node: &FileNode) -> (r: Option<(FileNode, u64)>)
    ensures
        match r {
            Some(t) => sizes_fit(node@) && t.0@ == sized(node@).0 && t.1 == sized(node@).1,
            None => !sizes_fit(node@),
        },
    decreases node,
{
    let ghost v = node@;
    if node.children.len() == 0 {
        let t = node.deep_clone();
        return Some((t, node.size));
    }
    let mut kids: Vec<FileNode> = Vec::new();
    let mut sum: u64 = 0;
    let mut i: usize = 0;
    while i < node.children.len()
        invariant
            i <= node.children@.len(),
            v == node@,
            v.children.len() == node.children@.len(),
            views_of_nodes(kids@) == sized_list(v, i as nat).0,
            sum == sized_list(v, i as nat).1,
            forall|j: int| 0 <= j < i ==> sizes_fit(#[trigger] v.children[j]),
        decreases node.children@.len() - i,
    {
        assert(v.children[i as int] == node.children@[i as int]@);
        proof {
            lemma_sized_list_prefix(v, (i + 1) as nat, v.children.len() as nat);
        }
        match size_tree(&node.children[i]) {
            None => {
                return None;
            },
            Some((c, cs)) => {
                match sum.checked_add(cs) {
                    None => {
                        return None;
                    },
                    Some(t) => {
                        let ghost before = views_of_nodes(kids@);
                        kids.push(c);
                        assert(views_of_nodes(kids@) =~= before.push(sized(v.children[i as int]).0));
                        sum = t;
                    },
                }
            },
        }
        i = i + 1;
    }
    let r = FileNode { path: node.path.clone(), size: sum, modified: node.modified, file_type: node.file_type, children: kids };
    assert(r@.children =~= sized_list(v, v.children.len() as nat).0);
    assert(r@ == sized(v).0);
    Some((r, sum))
}

/// The tree folded from `entries` under the root path `root`, given the
/// parent of each entry's relative path (`parents[i]` for `entries[i]`):
/// the directories with children sized as the sum of their children;
/// `None` where such a sum does not fit in 64 bits.
pub fn build_tree_with_parents(root: &str, entries: &Vec<WalkEntry>, parents: &Vec<Option<String>>) -> (r: Option<FileNode>)
    requires
        entries@.len() == parents@.len(),
    ensures
        ({
            let raw = raw_tree(root@, wvs(entries@), opt_texts(parents@));
            match r {
                Some(t) => sizes_fit(raw) && t@ == sized(raw).0,
                None => !sizes_fit(raw),
            }
        }),
{
    let ghost es = wvs(entries@);
    let ghost ps = opt_texts(parents@);
    let mut keys: Vec<String> = Vec::new();
    let mut i: usize = 0;
    while i < parents.len()
        invariant
            i <= parents@.len(),
            ps == opt_texts(parents@),
            keys@.map_values(|k: String| k@) == keys_of(ps).take(i as int),
        decreases parents@.len() - i,
    {
        let k = match &parents[i] {
            Some(p) => p.clone(),
            None => String::new(),
        };
        let ghost before = keys@.map_values(|k: String| k@);
        keys.push(k);
        assert(keys@.map_values(|k: String| k@) =~= before.push(parent_key(ps[i as int])));
        i = i + 1;
        assert(keys@.map_values(|k: String| k@) =~= keys_of(ps).take(i as int));
    }
    assert(keys_of(ps).take(i as int) =~= keys_of(ps));
    assert(keys_of(ps) =~= ps.map_values(|p: Option<Seq<char>>| parent_key(p)));
    let mut gs = group_walk(entries, &keys);
    let n_groups = gs.len();
    let mut size: u64 = 0;
    let mut modified: u64 = 0;
    let mut j: usize = 0;
    let mut found = false;
    while j < entries.len() && !found
        invariant
            j <= entries@.len(),
            es == wvs(entries@),
            !found ==> root_entry(es.take(j as int)) is None,
            !found ==> size == 0 && modified == 0,
            found ==> (root_entry(es) matches Some(w) && es[w].size == size && es[w].modified == modified),
        decreases entries@.len() - j, if found { 0int } else { 1int },
    {
        assert(es.take(j + 1).drop_last() =~= es.take(j as int));
        assert(es.take(j + 1).last() == entries@[j as int].wv());
        if entries[j].rel.unicode_len() == 0 {
            size = entries[j].size;
            modified = entries[j].modified;
            found = true;
            proof {
                assert(root_entry(es.take(j + 1)) == Some(j as int));
                lemma_root_entry_prefix(es, j + 1, j as int);
            }
        } else {
            j = j + 1;
        }
    }
    if !found {
        assert(es.take(j as int) =~= es);
    }
    let children = build_children_exec(&mut gs, "", n_groups);
    proof {
        reveal_strlit("");
        assert(""@ =~= Seq::<char>::empty());
    }
    let raw_root = FileNode { path: String::from_str(root), size, modified, file_type: FileType::Directory, children };
    proof {
        let gsv = group_entries(es, ps.map_values(|p: Option<Seq<char>>| parent_key(p)));
        assert(raw_root@.children =~= views_of_nodes(raw_root.children@));
        assert(raw_root@.children == build_children(gsv, Seq::empty(), gsv.len()).0);
        let sm = match root_entry(es) {
            Some(w) => (es[w].size, es[w].modified),
            None => (0u64, 0u64),
        };
        assert(sm == (size, modified));
        assert(raw_root@.path == root@);
    }
    assert(raw_root@ == raw_tree(root@, es, ps));
    match size_tree(&raw_root) {
        Some((t, _)) => Some(t),
        None => None,
    }
}

proof fn lemma_root_entry_prefix(es: Seq<WalkV>, j: int, w: int)
    requires
        0 <= j <= es.len(),
        root_entry(es.take(j)) == Some(w),
    ensures
        root_entry(es) == Some(w),
    decreases es.len(),
{
    if j == es.len() {
        assert(es.take(j) =~= es);
    } else {
        let d = es.drop_last();
        assert(d.take(j) =~= es.take(j));
        lemma_root_entry_prefix(d, j, w);
    }
}

/// The parents of the relative paths of entries (`Path::parent`).
fn rel_parents(entries: &Vec<WalkEntry>) -> (r: Vec<Option<String>>)
    ensures
        opt_texts(r@) == named_rel_parents(wvs(entries@)),
        r@.len() == entries@.len(),
{
    let mut out: Vec<Option<String>> = Vec::new();
    let mut i: usize = 0;
    while i < entries.len()
        invariant
            i <= entries@.len(),
            out@.len() == i,
            opt_texts(out@) == named_rel_parents(wvs(entries@)).take(i as int),
        decreases entries@.len() - i,
    {
        let ghost prev = opt_texts(out@);
        let p = parent_of(entries[i].rel.as_str());
        assert(named_rel_parents(wvs(entries@))[i as int] == path_parent(entries@[i as int].rel@));
        out.push(p);
        assert(opt_texts(out@) =~= prev.push(path_parent(entries@[i as int].rel@)));
        i = i + 1;
        assert(opt_texts(out@) =~= named_rel_parents(wvs(entries@)).take(i as int));
    }
    assert(named_rel_parents(wvs(entries@)).take(i as int) =~= named_rel_parents(wvs(entries@)));
    out
}

/// The parents of relative paths.
pub open spec fn named_rel_parents(es: Seq<WalkV>) -> Seq<Option<Seq<char>>> {
    es.map_values(|e: WalkV| path_parent(e.rel))
}

/// Folds the entries of a walk under `root` into a tree (see
/// [`build_tree_with_parents`]); every directory sum must fit in 64 bits
/// (see [`try_build_tree`]).
pub fn build_tree(root: &str, entries: &Vec<WalkEntry>) -> (r: FileNode)
    requires
        sizes_fit(raw_tree(root@, wvs(entries@), named_rel_parents(wvs(entries@)))),
    ensures
        r@ == sized(raw_tree(root@, wvs(entries@), named_rel_parents(wvs(entries@)))).0,
{
    let parents = rel_parents(entries);
    match build_tree_with_parents(root, entries, &parents) {
        Some(t) => t,
        None => {
            proof {
                assert(false);
            }
            FileNode { path: String::new(), size: 0, modified: 0, file_type: FileType::Directory, children: Vec::new() }
        },
    }
}

/// Folds the entries as [`build_tree`] does, or gives `None` where a
/// directory sum does not fit in 64 bits.
pub fn try_build_tree(root: &str, entries: &Vec<WalkEntry>) -> (r: Option<FileNode>)
    ensures
        ({
            let raw = raw_tree(root@, wvs(entries@), named_rel_parents(wvs(entries@)));
            match r {
                Some(t) => sizes_fit(raw) && t@ == sized(raw).0,
                None => !sizes_fit(raw),
            }
        }),
{
    let parents = rel_parents(entries);
    match build_tree_with_parents(root, entries, &parents) {
        Some(_) => Some(build_tree(root, entries)),
        None => None,
    }
}

} // verus!
