//! Recursive sorting of a scanned tree: every level is sorted by a
//! [`SortSpec`], stably.
use vstd::prelude::*;
use crate::domain::{debug_name, vcounts, views_of, FileNode, FileNodeV, ScanResult, SortColumn, SortDirection, SortSpec};
use crate::sorting::{is_perm, key_le, lex_le, stable_by_keys, KeyV};
use crate::sums::{lemma_sum_elem_le, lemma_sum_reorder, sum_nat};

verus! {

/// The key of a tree value under `spec` (the same key as
/// [`SortSpec::key_of`], on the node's value).
pub open spec fn key_of_v(spec: SortSpec, n: FileNodeV) -> KeyV {
    match spec.column {
        SortColumn::Name => KeyV::Text(n.path),
        SortColumn::Size => KeyV::Num(n.size as nat),
        SortColumn::Modified => KeyV::Num(n.modified as nat),
        SortColumn::Type => KeyV::Text(debug_name(n.file_type)),
    }
}

/// The keys of tree values.
pub open spec fn keys_v(spec: SortSpec, xs: Seq<FileNodeV>) -> Seq<KeyV> {
    xs.map_values(|x: FileNodeV| key_of_v(spec, x))
}

/// Whether the spec sorts descending.
pub open spec fn is_desc(spec: SortSpec) -> bool {
    spec.direction == SortDirection::Descending
}

/// `r` is `n` with the children of every node stably sorted by `spec`.
pub open spec fn sorted_node(r: FileNodeV, n: FileNodeV, spec: SortSpec) -> bool
    decreases n,
{
    &&& r.path == n.path
    &&& r.size == n.size
    &&& r.modified == n.modified
    &&& r.file_type == n.file_type
    &&& r.children.len() == n.children.len()
    &&& exists|p: Seq<int>|
        #![trigger is_perm(p, n.children.len())]
        is_perm(p, n.children.len()) && stable_by_keys(keys_v(spec, n.children), is_desc(spec), p)
            && forall|k: int|
            0 <= k < r.children.len() ==> 0 <= #[trigger] p[k] < n.children.len() && sorted_node(
                r.children[k],
                n.children[p[k]],
                spec,
            )
}

/// `new` is the forest `old` stably sorted by `spec` at every level.
pub open spec fn sorted_forest(new: Seq<FileNodeV>, old: Seq<FileNodeV>, spec: SortSpec) -> bool {
    &&& new.len() == old.len()
    &&& exists|p: Seq<int>|
        #![trigger is_perm(p, old.len())]
        is_perm(p, old.len()) && stable_by_keys(keys_v(spec, old), is_desc(spec), p) && forall|k: int|
            0 <= k < new.len() ==> 0 <= #[trigger] p[k] < old.len() && sorted_node(
                new[k],
                old[p[k]],
                spec,
            )
}

/// Number of entries in a forest.
pub open spec fn forest_count(xs: Seq<FileNodeV>) -> nat {
    sum_nat(vcounts(xs))
}

/// Sorting keeps the number of entries of a tree.
pub proof fn lemma_sorted_node_count(r: FileNodeV, n: FileNodeV, spec: SortSpec)
    requires
        sorted_node(r, n, spec),
    ensures
        r.count() == n.count(),
    decreases n,
{
    let p = choose|p: Seq<int>|
        #![trigger is_perm(p, n.children.len())]
        is_perm(p, n.children.len()) && stable_by_keys(keys_v(spec, n.children), is_desc(spec), p)
            && forall|k: int|
            0 <= k < r.children.len() ==> 0 <= #[trigger] p[k] < n.children.len() && sorted_node(
                r.children[k],
                n.children[p[k]],
                spec,
            );
    assert forall|k: int| 0 <= k < r.child_counts().len() implies r.child_counts()[k]
        == n.child_counts()[#[trigger] p[k]] by {
        lemma_sorted_node_count(r.children[k], n.children[p[k]], spec);
    }
    lemma_sum_reorder(n.child_counts(), r.child_counts(), p);
}

/// Sorting keeps the number of entries of a forest.
pub proof fn lemma_sorted_forest_count(new: Seq<FileNodeV>, old: Seq<FileNodeV>, spec: SortSpec)
    requires
        sorted_forest(new, old, spec),
    ensures
        forest_count(new) == forest_count(old),
{
    let p = choose|p: Seq<int>|
        #![trigger is_perm(p, old.len())]
        is_perm(p, old.len()) && stable_by_keys(keys_v(spec, old), is_desc(spec), p) && forall|k: int|
            0 <= k < new.len() ==> 0 <= #[trigger] p[k] < old.len() && sorted_node(
                new[k],
                old[p[k]],
                spec,
            );
    assert forall|k: int| 0 <= k < vcounts(new).len() implies vcounts(new)[k] == vcounts(old)[#[trigger] p[k]] by {
        lemma_sorted_node_count(new[k], old[p[k]], spec);
    }
    lemma_sum_reorder(vcounts(old), vcounts(new), p);
}

/// Sorts `entries` by `spec`, and recursively the children of every entry.
pub fn apply_sort(entries: &mut Vec<FileNode>, spec: SortSpec)
    ensures
        sorted_forest(views_of(final(entries)@), views_of(old(entries)@), spec),
    decreases forest_count(views_of(old(entries)@)),
{
    let ghost orig = views_of(entries@);
    let n = entries.len();
    let mut i: usize = 0;
    while i < n
        invariant
            n == entries@.len(),
            orig == views_of(old(entries)@),
            orig.len() == n,
            i <= n,
            forall|j: int| i <= j < n ==> #[trigger] entries@[j] == old(entries)@[j],
            forall|j: int| 0 <= j < i ==> sorted_node((#[trigger] entries@[j])@, orig[j], spec),
        decreases n - i,
    {
        let ghost before = entries@;
        let mut node = entries.remove(i);
        proof {
            assert(node == old(entries)@[i as int]);
            assert(views_of(node.children@) =~= node@.children);
            assert(vcounts(node@.children) =~= node@.child_counts());
            lemma_sum_elem_le(vcounts(orig), i as int);
        }
        apply_sort(&mut node.children, spec);
        entries.insert(i, node);
        proof {
            let nv = entries@[i as int]@;
            let ov = orig[i as int];
            assert(nv.children =~= views_of(entries@[i as int].children@));
            assert(ov.children =~= views_of(old(entries)@[i as int].children@));
            assert(sorted_node(nv, ov, spec));
            assert forall|j: int| i < j < n implies #[trigger] entries@[j] == old(entries)@[j] by {
                assert(entries@[j] == before[j]);
            }
            assert forall|j: int| 0 <= j < i implies sorted_node((#[trigger] entries@[j])@, orig[j], spec) by {
                assert(entries@[j] == before[j]);
            }
        }
        i = i + 1;
    }
    let ghost mid = entries@;
    spec.apply(entries);
    proof {
        let p = choose|p: Seq<int>|
            crate::sorting::reorders(mid, entries@, p) && stable_by_keys(spec.keys_of(mid), is_desc(spec), p);
        assert(spec.keys_of(mid) =~= keys_v(spec, orig));
        assert forall|k: int| 0 <= k < entries@.len() implies 0 <= #[trigger] p[k] < orig.len()
            && sorted_node(views_of(entries@)[k], orig[p[k]], spec) by {
            assert(entries@[k] == mid[p[k]]);
        }
        assert(is_perm(p, orig.len()));
    }
}

/// A copy of the result whose tree is sorted at every level below the
/// root; the totals are taken again from the root.
pub fn apply_sort_result(result: &ScanResult, spec: SortSpec) -> (r: ScanResult)
    requires
        result.root.count() <= u64::MAX,
    ensures
        r.root@.path == result.root@.path,
        r.root@.size == result.root@.size,
        r.root@.modified == result.root@.modified,
        r.root@.file_type == result.root@.file_type,
        sorted_forest(r.root@.children, result.root@.children, spec),
        r.total_size == result.root.size,
        r.file_count == result.root.count(),
        r.scan_duration_ms == result.scan_duration_ms,
        r.skipped@.len() == 0,
{
    let mut root = result.root.clone();
    let ghost before = root@;
    apply_sort(&mut root.children, spec);
    proof {
        assert(views_of(root.children@) =~= root@.children);
        assert(before.children =~= views_of(result.root.children@)) by {
            assert(before == result.root@);
        }
        lemma_sorted_forest_count(root@.children, before.children, spec);
        assert(vcounts(root@.children) =~= root@.child_counts());
        assert(vcounts(before.children) =~= before.child_counts());
    }
    ScanResult::from_tree(root, result.scan_duration_ms)
}


/// `a` comes no later than `b` when sorted by `spec`'s column in its
/// direction: by size, by modification time, by path or by type name,
/// smallest first ascending and largest first descending.
pub open spec fn in_column_order_v(spec: SortSpec, a: FileNodeV, b: FileNodeV) -> bool {
    let asc = spec.direction == SortDirection::Ascending;
    match spec.column {
        SortColumn::Size => if asc { a.size <= b.size } else { a.size >= b.size },
        SortColumn::Modified => if asc { a.modified <= b.modified } else { a.modified >= b.modified },
        SortColumn::Name => if asc { lex_le(a.path, b.path) } else { lex_le(b.path, a.path) },
        SortColumn::Type => if asc {
            lex_le(debug_name(a.file_type), debug_name(b.file_type))
        } else {
            lex_le(debug_name(b.file_type), debug_name(a.file_type))
        },
    }
}

/// Sorting a forest by a column puts its top-level entries in that
/// column's order: by modification time, oldest first ascending and
/// newest first descending; likewise by size, by path and by type name.
pub proof fn law_sorted_forest_in_column_order(new: Seq<FileNodeV>, old: Seq<FileNodeV>, spec: SortSpec)
    requires
        sorted_forest(new, old, spec),
    ensures
        forall|i: int, j: int|
            0 <= i < j < new.len() ==> in_column_order_v(spec, #[trigger] new[i], #[trigger] new[j]),
{
    let keys = keys_v(spec, old);
    let p = choose|p: Seq<int>|
        #![trigger is_perm(p, old.len())]
        is_perm(p, old.len()) && stable_by_keys(keys, is_desc(spec), p) && forall|k: int|
            0 <= k < new.len() ==> 0 <= #[trigger] p[k] < old.len() && sorted_node(new[k], old[p[k]], spec);
    assert forall|i: int, j: int| 0 <= i < j < new.len() implies in_column_order_v(spec, #[trigger] new[i], #[trigger] new[j]) by {
        assert(key_le(keys[p[i]], keys[p[j]], is_desc(spec)));
        assert(sorted_node(new[i], old[p[i]], spec));
        assert(sorted_node(new[j], old[p[j]], spec));
        assert(keys[p[i]] == key_of_v(spec, old[p[i]]));
        assert(keys[p[j]] == key_of_v(spec, old[p[j]]));
    }
}

} // verus!
