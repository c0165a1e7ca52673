//! Edits of a scanned tree addressed by path: finding the first node with
//! a path (pre-order), changing its fields, removing every node with a
//! path, and attaching a node under its parent directory.
use vstd::prelude::*;
use crate::domain::{FileNode, FileNodeV, FileType};
use crate::engine::domain::file_type::{last_index_of, rfind_char};
use crate::text::{chars_of, str_eq, string_from_chars};

verus! {

/// Some node of the tree at `n` has path `p`.
pub open spec fn has_path(n: FileNodeV, p: Seq<char>) -> bool
    decreases n, 1nat, 0nat,
{
    n.path == p || has_path_list(n, p, n.children.len() as nat)
}

/// Some node under the first `k` children of `n` has path `p`.
pub open spec fn has_path_list(n: FileNodeV, p: Seq<char>, k: nat) -> bool
    decreases n, 0nat, k,
{
    if k == 0 || k > n.children.len() {
        false
    } else {
        has_path_list(n, p, (k - 1) as nat) || has_path(n.children[k - 1], p)
    }
}

/// The first node with path `p` in pre-order.
pub open spec fn found(n: FileNodeV, p: Seq<char>) -> FileNodeV
    decreases n, 1nat, 0nat,
{
    if n.path == p {
        n
    } else {
        found_list(n, p, n.children.len() as nat)
    }
}

/// The first node with path `p` under the first `k` children of `n`.
pub open spec fn found_list(n: FileNodeV, p: Seq<char>, k: nat) -> FileNodeV
    decreases n, 0nat, k,
{
    if k == 0 || k > n.children.len() {
        arbitrary()
    } else if has_path_list(n, p, (k - 1) as nat) {
        found_list(n, p, (k - 1) as nat)
    } else {
        found(n.children[k - 1], p)
    }
}

/// The tree with the size, time and type of the first node with path `p`
/// replaced.
pub open spec fn updated(n: FileNodeV, p: Seq<char>, size: u64, mtime: u64, ft: FileType) -> FileNodeV
    decreases n, 1nat, 0nat,
{
    if n.path == p {
        FileNodeV { size, modified: mtime, file_type: ft, ..n }
    } else {
        FileNodeV { children: updated_list(n, p, size, mtime, ft, n.children.len() as nat), ..n }
    }
}

/// The first `k` children of `n` after [`updated`].
pub open spec fn updated_list(
    n: FileNodeV,
    p: Seq<char>,
    size: u64,
    mtime: u64,
    ft: FileType,
    k: nat,
) -> Seq<FileNodeV>
    decreases n, 0nat, k,
{
    if k == 0 || k > n.children.len() {
        Seq::empty()
    } else {
        let c = n.children[k - 1];
        updated_list(n, p, size, mtime, ft, (k - 1) as nat).push(
            if has_path_list(n, p, (k - 1) as nat) {
                c
            } else {
                updated(c, p, size, mtime, ft)
            },
        )
    }
}

/// The tree without the nodes with path `p` (a root with that path keeps
/// its place, emptied and with size zero).
pub open spec fn removed(n: FileNodeV, p: Seq<char>) -> FileNodeV
    decreases n, 1nat, 0nat,
{
    if n.path == p {
        FileNodeV { children: Seq::empty(), size: 0, ..n }
    } else {
        FileNodeV { children: removed_list(n, p, n.children.len() as nat), ..n }
    }
}

/// The first `k` children of `n` after [`removed`], those with path `p`
/// dropped.
pub open spec fn removed_list(n: FileNodeV, p: Seq<char>, k: nat) -> Seq<FileNodeV>
    decreases n, 0nat, k,
{
    if k == 0 || k > n.children.len() {
        Seq::empty()
    } else {
        let c = n.children[k - 1];
        let rest = removed_list(n, p, (k - 1) as nat);
        if c.path == p {
            rest
        } else {
            rest.push(removed(c, p))
        }
    }
}

/// The tree with `c` appended to the children of the first node with
/// path `p`.
pub open spec fn pushed_under(n: FileNodeV, p: Seq<char>, c: FileNodeV) -> FileNodeV
    decreases n, 1nat, 0nat,
{
    if n.path == p {
        FileNodeV { children: n.children.push(c), ..n }
    } else {
        FileNodeV { children: pushed_list(n, p, c, n.children.len() as nat), ..n }
    }
}

/// The first `k` children of `n` after [`pushed_under`].
pub open spec fn pushed_list(n: FileNodeV, p: Seq<char>, c: FileNodeV, k: nat) -> Seq<FileNodeV>
    decreases n, 0nat, k,
{
    if k == 0 || k > n.children.len() {
        Seq::empty()
    } else {
        let x = n.children[k - 1];
        pushed_list(n, p, c, (k - 1) as nat).push(
            if has_path_list(n, p, (k - 1) as nat) {
                x
            } else {
                pushed_under(x, p, c)
            },
        )
    }
}

/// The directory part of a path: the text before its last `/`, when that
/// `/` is not the first character.
pub open spec fn parent_of(path: Seq<char>) -> Option<Seq<char>> {
    match last_index_of(path, '/') {
        Some(i) => if i > 0 {
            Some(path.take(i))
        } else {
            None
        },
        None => None,
    }
}

/// The tree with `c` attached under its parent directory, or under the
/// root when the parent is not in the tree.
pub open spec fn attached(n: FileNodeV, c: FileNodeV) -> FileNodeV {
    match parent_of(c.path) {
        Some(pp) => if has_path(n, pp) {
            pushed_under(n, pp, c)
        } else {
            FileNodeV { children: n.children.push(c), ..n }
        },
        None => FileNodeV { children: n.children.push(c), ..n },
    }
}

proof fn lemma_updated_list_len(n: FileNodeV, p: Seq<char>, size: u64, mtime: u64, ft: FileType, k: nat)
    requires
        k <= n.children.len(),
    ensures
        updated_list(n, p, size, mtime, ft, k).len() == k,
    decreases k,
{
    if k > 0 {
        lemma_updated_list_len(n, p, size, mtime, ft, (k - 1) as nat);
    }
}

proof fn lemma_pushed_list_len(n: FileNodeV, p: Seq<char>, c: FileNodeV, k: nat)
    requires
        k <= n.children.len(),
    ensures
        pushed_list(n, p, c, k).len() == k,
    decreases k,
{
    if k > 0 {
        lemma_pushed_list_len(n, p, c, (k - 1) as nat);
    }
}

/// Pushing under a path the tree does not hold changes nothing.
proof fn lemma_pushed_noop(n: FileNodeV, p: Seq<char>, c: FileNodeV)
    requires
        !has_path(n, p),
    ensures
        pushed_under(n, p, c) == n,
    decreases n, 1nat, 0nat,
{
    lemma_pushed_list_noop(n, p, c, n.children.len() as nat);
    lemma_pushed_list_len(n, p, c, n.children.len() as nat);
    assert(pushed_list(n, p, c, n.children.len() as nat) =~= n.children);
}

proof fn lemma_pushed_list_noop(n: FileNodeV, p: Seq<char>, c: FileNodeV, k: nat)
    requires
        k <= n.children.len(),
        !has_path_list(n, p, k),
    ensures
        pushed_list(n, p, c, k) =~= n.children.take(k as int),
    decreases n, 0nat, k,
{
    if k > 0 {
        lemma_pushed_list_noop(n, p, c, (k - 1) as nat);
        lemma_pushed_noop(n.children[k - 1], p, c);
        assert(n.children.take(k as int) =~= n.children.take(k - 1).push(n.children[k - 1]));
    }
}

/// The size, time and type of the first node with path `path`.
pub fn find_fields(n: &FileNode, path: &str) -> (r: Option<(u64, u64, FileType)>)
    ensures
        r is Some <==> has_path(n@, path@),
        r matches Some(t) ==> t == (found(n@, path@).size, found(n@, path@).modified, found(
            n@,
            path@,
        ).file_type),
    decreases n,
{
    if str_eq(n.path.as_str(), path) {
        return Some((n.size, n.modified, n.file_type));
    }
    let mut k: usize = 0;
    while k < n.children.len()
        invariant
            k <= n.children@.len(),
            n@.path != path@,
            !has_path_list(n@, path@, k as nat),
        decreases n.children@.len() - k,
    {
        assert(n@.children[k as int] == n.children@[k as int]@);
        let r = find_fields(&n.children[k], path);
        if r.is_some() {
            proof {
                lemma_found_list_first(n@, path@, (k + 1) as nat, n@.children.len() as nat);
            }
            return r;
        }
        k = k + 1;
    }
    None
}

/// The first node with path `path`, in pre-order.
pub fn find_node<'a>(root: &'a FileNode, path: &str) -> (r: Option<&'a FileNode>)
    ensures
        r is Some <==> has_path(root@, path@),
        r matches Some(n) ==> n@ == found(root@, path@),
    decreases root,
{
    if str_eq(root.path.as_str(), path) {
        return Some(root);
    }
    let mut k: usize = 0;
    while k < root.children.len()
        invariant
            k <= root.children@.len(),
            root@.path != path@,
            !has_path_list(root@, path@, k as nat),
        decreases root.children@.len() - k,
    {
        assert(root@.children[k as int] == root.children@[k as int]@);
        let r = find_node(&root.children[k], path);
        if r.is_some() {
            proof {
                lemma_found_list_first(root@, path@, (k + 1) as nat, root@.children.len() as nat);
            }
            return r;
        }
        k = k + 1;
    }
    None
}

/// Where a later prefix of the children first holds the path, it is found
/// in the same child.
proof fn lemma_found_list_first(n: FileNodeV, p: Seq<char>, k: nat, m: nat)
    requires
        0 < k <= m <= n.children.len(),
        has_path_list(n, p, k),
        !has_path_list(n, p, (k - 1) as nat),
    ensures
        has_path_list(n, p, m),
        found_list(n, p, m) == found(n.children[k - 1], p),
    decreases m - k,
{
    if m > k {
        lemma_found_list_first(n, p, k, (m - 1) as nat);
    }
}

/// Sets the size, time and type of the first node with path `path`;
/// whether one was found.
pub fn update_first(n: &mut FileNode, path: &str, size: u64, mtime: u64, ft: FileType) -> (r: bool)
    ensures
        r == has_path(old(n)@, path@),
        final(n)@ == updated(old(n)@, path@, size, mtime, ft),
    decreases old(n)@,
{
    if str_eq(n.path.as_str(), path) {
        n.size = size;
        n.modified = mtime;
        n.file_type = ft;
        proof {
            assert(final(n)@.children =~= old(n)@.children);
        }
        return true;
    }
    let ghost o = old(n)@;
    let mut found_it = false;
    let mut k: usize = 0;
    let len = n.children.len();
    while k < len
        invariant
            len == o.children.len(),
            n.children@.len() == len,
            k <= len,
            o == old(n)@,
            o.path != path@,
            n.path@ == o.path,
            n.size == o.size,
            n.modified == o.modified,
            n.file_type == o.file_type,
            found_it == has_path_list(o, path@, k as nat),
            forall|j: int| 0 <= j < k ==> (#[trigger] n.children@[j])@ == updated_list(o, path@, size, mtime, ft, k as nat)[j],
            forall|j: int| k <= j < len ==> (#[trigger] n.children@[j])@ == o.children[j],
        decreases len - k,
    {
        let ghost before = n.children@;
        let ghost prev = updated_list(o, path@, size, mtime, ft, k as nat);
        proof {
            lemma_updated_list_len(o, path@, size, mtime, ft, k as nat);
            lemma_updated_list_len(o, path@, size, mtime, ft, (k + 1) as nat);
        }
        let mut c = n.children.remove(k);
        assert(c@ == o.children[k as int]);
        if !found_it {
            let f = update_first(&mut c, path, size, mtime, ft);
            found_it = f;
        }
        n.children.insert(k, c);
        proof {
            assert(updated_list(o, path@, size, mtime, ft, (k + 1) as nat) == prev.push(n.children@[k as int]@));
            assert forall|j: int| 0 <= j < k + 1 implies (#[trigger] n.children@[j])@ == updated_list(o, path@, size, mtime, ft, (k + 1) as nat)[j] by {
                if j < k {
                    assert(n.children@[j] == before[j]);
                }
            }
            assert forall|j: int| k + 1 <= j < len implies (#[trigger] n.children@[j])@ == o.children[j] by {
                assert(n.children@[j] == before[j]);
            }
        }
        k = k + 1;
    }
    proof {
        lemma_updated_list_len(o, path@, size, mtime, ft, len as nat);
        assert(final(n)@.children =~= updated_list(o, path@, size, mtime, ft, len as nat));
    }
    found_it
}

/// Removes every node with path `path`; a root with that path is emptied
/// and its size set to zero.
pub fn remove_node(root: &mut FileNode, path: &str)
    ensures
        final(root)@ == removed(old(root)@, path@),
    decreases old(root)@,
{
    let ghost o = root@;
    if str_eq(root.path.as_str(), path) {
        root.children.clear();
        root.size = 0;
        proof {
            assert(final(root)@.children =~= Seq::<FileNodeV>::empty());
        }
        return ;
    }
    let mut olds: Vec<FileNode> = Vec::new();
    std::mem::swap(&mut olds, &mut root.children);
    let ghost oc = olds@;
    assert(oc.len() == o.children.len());
    let mut kept: Vec<FileNode> = Vec::new();
    let mut k: usize = 0;
    let len = olds.len();
    while k < len
        invariant
            o == old(root)@,
            len == oc.len(),
            oc.len() == o.children.len(),
            forall|j: int| 0 <= j < oc.len() ==> (#[trigger] oc[j])@ == o.children[j],
            k <= len,
            olds@ == oc.skip(k as int),
            kept@.map_values(|c: FileNode| c@) == removed_list(o, path@, k as nat),
        decreases len - k,
    {
        let mut c = olds.remove(0);
        assert(c == oc[k as int]);
        assert(c@ == o.children[k as int]);
        assert(olds@ =~= oc.skip(k + 1));
        let ghost before = kept@;
        if !str_eq(c.path.as_str(), path) {
            remove_node(&mut c, path);
            kept.push(c);
            assert(kept@.map_values(|c: FileNode| c@) =~= before.map_values(|c: FileNode| c@).push(
                kept@.last()@,
            ));
        }
        k = k + 1;
    }
    root.children = kept;
    proof {
        assert(final(root)@.children =~= removed_list(o, path@, len as nat));
    }
}

/// Appends `c` to the children of the first node with path `p`; gives
/// `c` back when there is none.
fn push_under(n: &mut FileNode, p: &str, c: FileNode) -> (r: Option<FileNode>)
    ensures
        r is None <==> has_path(old(n)@, p@),
        r is None ==> final(n)@ == pushed_under(old(n)@, p@, c@),
        r matches Some(b) ==> b@ == c@ && final(n)@ == old(n)@,
    decreases old(n)@,
{
    let ghost cv = c@;
    if str_eq(n.path.as_str(), p) {
        n.children.push(c);
        proof {
            assert(final(n)@.children =~= old(n)@.children.push(cv));
        }
        return None;
    }
    let ghost o = old(n)@;
    let mut carry: Option<FileNode> = Some(c);
    let mut k: usize = 0;
    let len = n.children.len();
    while k < len
        invariant
            len == o.children.len(),
            n.children@.len() == len,
            k <= len,
            o == old(n)@,
            o.path != p@,
            n.path@ == o.path,
            n.size == o.size,
            n.modified == o.modified,
            n.file_type == o.file_type,
            carry is None <==> has_path_list(o, p@, k as nat),
            carry matches Some(x) ==> x@ == cv,
            forall|j: int| 0 <= j < k ==> (#[trigger] n.children@[j])@ == pushed_list(o, p@, cv, k as nat)[j],
            forall|j: int| k <= j < len ==> (#[trigger] n.children@[j])@ == o.children[j],
        decreases len - k,
    {
        let ghost before = n.children@;
        let ghost prev = pushed_list(o, p@, cv, k as nat);
        proof {
            lemma_pushed_list_len(o, p@, cv, k as nat);
            lemma_pushed_list_len(o, p@, cv, (k + 1) as nat);
        }
        let mut x = n.children.remove(k);
        assert(x@ == o.children[k as int]);
        let ghost xv = x@;
        match carry {
            Some(cc) => {
                carry = push_under(&mut x, p, cc);
                proof {
                    if carry is Some {
                        lemma_pushed_noop(xv, p@, cv);
                    }
                }
            },
            None => {},
        }
        n.children.insert(k, x);
        proof {
            assert(pushed_list(o, p@, cv, (k + 1) as nat) == prev.push(n.children@[k as int]@));
            assert forall|j: int| 0 <= j < k + 1 implies (#[trigger] n.children@[j])@ == pushed_list(o, p@, cv, (k + 1) as nat)[j] by {
                if j < k {
                    assert(n.children@[j] == before[j]);
                }
            }
            assert forall|j: int| k + 1 <= j < len implies (#[trigger] n.children@[j])@ == o.children[j] by {
                assert(n.children@[j] == before[j]);
            }
        }
        k = k + 1;
    }
    proof {
        lemma_pushed_list_len(o, p@, cv, len as nat);
        if carry is None {
            assert(final(n)@.children =~= pushed_list(o, p@, cv, len as nat));
        } else {
            lemma_pushed_list_noop(o, p@, cv, len as nat);
            assert(o.children.take(len as int) =~= o.children);
            assert(final(n)@.children =~= o.children);
        }
    }
    carry
}

/// Attaches `node` under its parent directory (the text of its path
/// before the last `/`), or under `root` when that `/` starts the path,
/// is missing, or names no node of the tree.
pub fn attach_node(root: &mut FileNode, node: FileNode)
    ensures
        final(root)@ == attached(old(root)@, node@),
{
    let cs = chars_of(node.path.as_str());
    let ghost nv = node@;
    match rfind_char(&cs, '/') {
        Some(idx) => {
            if idx > 0 {
                let mut pv: Vec<char> = Vec::new();
                let mut i: usize = 0;
                while i < idx
                    invariant
                        i <= idx,
                        idx < cs@.len(),
                        pv@ == cs@.take(i as int),
                    decreases idx - i,
                {
                    pv.push(cs[i]);
                    i = i + 1;
                    assert(pv@ =~= cs@.take(i as int));
                }
                let parent = string_from_chars(&pv);
                match push_under(root, parent.as_str(), node) {
                    None => {},
                    Some(back) => {
                        root.children.push(back);
                        proof {
                            assert(final(root)@.children =~= old(root)@.children.push(nv));
                        }
                    },
                }
                return ;
            }
        },
        None => {},
    }
    root.children.push(node);
    proof {
        assert(final(root)@.children =~= old(root)@.children.push(nv));
    }
}

/// Some child among the first `k` has path `p` when the list search
/// finds it.
proof fn lemma_has_path_list_witness(n: FileNodeV, p: Seq<char>, k: nat)
    requires
        has_path_list(n, p, k),
    ensures
        exists|m: int| 0 <= m < k && m < n.children.len() && has_path(#[trigger] n.children[m], p),
    decreases k,
{
    if k > 0 && k <= n.children.len() {
        if has_path_list(n, p, (k - 1) as nat) {
            lemma_has_path_list_witness(n, p, (k - 1) as nat);
        } else {
            assert(has_path(n.children[k - 1], p));
        }
    }
}

/// Every child left by [`removed_list`] is a removal from a child whose
/// path is not `p`.
proof fn lemma_removed_list_origin(n: FileNodeV, p: Seq<char>, k: nat)
    ensures
        forall|m: int|
            0 <= m < removed_list(n, p, k).len() ==> exists|j: int|
                0 <= j < n.children.len() && n.children[j].path != p && #[trigger] removed_list(n, p, k)[m]
                    == removed(n.children[j], p),
    decreases k,
{
    if k > 0 && k <= n.children.len() {
        lemma_removed_list_origin(n, p, (k - 1) as nat);
        let rest = removed_list(n, p, (k - 1) as nat);
        let c = n.children[k - 1];
        if c.path != p {
            assert forall|m: int| 0 <= m < removed_list(n, p, k).len() implies exists|j: int|
                0 <= j < n.children.len() && n.children[j].path != p && #[trigger] removed_list(n, p, k)[m]
                    == removed(n.children[j], p) by {
                if m < rest.len() {
                    assert(removed_list(n, p, k)[m] == rest[m]);
                } else {
                    assert(removed_list(n, p, k)[m] == removed(n.children[k - 1], p));
                }
            }
        }
    }
}

/// Removing path `p` from a tree whose root is not `p` leaves no node with
/// path `p`.
pub proof fn law_removed_lacks_path(n: FileNodeV, p: Seq<char>)
    requires
        n.path != p,
    ensures
        !has_path(removed(n, p), p),
    decreases n,
{
    let r = removed(n, p);
    lemma_removed_list_origin(n, p, n.children.len() as nat);
    if has_path(r, p) {
        lemma_has_path_list_witness(r, p, r.children.len() as nat);
        let m = choose|m: int| 0 <= m < r.children.len() && has_path(#[trigger] r.children[m], p);
        let j = choose|j: int|
            0 <= j < n.children.len() && n.children[j].path != p && #[trigger] removed_list(
                n,
                p,
                n.children.len() as nat,
            )[m] == removed(n.children[j], p);
        law_removed_lacks_path(n.children[j], p);
        assert(false);
    }
}

} // verus!
