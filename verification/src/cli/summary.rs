//! The summary of a scan: total size and entry count, the ten largest
//! entries, and how many paths were skipped.
use vstd::prelude::*;
use crate::domain::{
    format_size, format_size_text, preorder_v, ref_views, views_of, walk_tree, FileNode, FileNodeV,
    ScanResult, SortColumn, SortDirection, SortSpec,
};
use crate::engine::format::{pad_left, push_pad_left};
use crate::sorting::{reorders, stable_by_keys, stably_sorted, KeyV};
use crate::text::{dec, push_dec};

verus! {

/// The sizes of entries, as numeric sort keys.
pub open spec fn size_keys(ns: Seq<FileNodeV>) -> Seq<KeyV> {
    ns.map_values(|n: FileNodeV| KeyV::Num(n.size as nat))
}

/// The first lines: total size and entry count, then the heading of the
/// list.
pub open spec fn summary_head(r: ScanResult) -> Seq<char> {
    "total: "@ + format_size_text(r.total_size as nat) + " ("@ + dec(r.file_count as nat) + " entries)\n"@
        + "top 10:\n"@
}

/// An entry's line: its size right-aligned in ten columns, then its path.
pub open spec fn top_line(n: FileNodeV) -> Seq<char> {
    "  "@ + pad_left(format_size_text(n.size as nat), 10) + "  "@ + n.path + "\n"@
}

/// The lines of entries.
pub open spec fn top_lines(ns: Seq<FileNodeV>) -> Seq<char>
    decreases ns.len(),
{
    if ns.len() == 0 {
        Seq::empty()
    } else {
        top_lines(ns.drop_last()) + top_line(ns.last())
    }
}

/// The closing line, present when paths were skipped.
pub open spec fn skipped_line(r: ScanResult) -> Seq<char> {
    if r.skipped@.len() == 0 {
        Seq::empty()
    } else {
        "skipped "@ + dec(r.skipped@.len()) + " path(s)\n"@
    }
}

/// The summary of `r` when its entries, largest first, are `sorted`.
pub open spec fn summary_of(r: ScanResult, sorted: Seq<FileNodeV>) -> Seq<char> {
    let k = if sorted.len() < 10 {
        sorted.len() as int
    } else {
        10
    };
    summary_head(r) + top_lines(sorted.take(k)) + skipped_line(r)
}

proof fn lemma_sorted_views(old: Seq<FileNode>, new: Seq<FileNode>, spec: SortSpec)
    requires
        spec.column == SortColumn::Size,
        stably_sorted(old, spec.keys_of(old), true, new),
    ensures
        stably_sorted(views_of(old), size_keys(views_of(old)), true, views_of(new)),
{
    let p = choose|p: Seq<int>| reorders(old, new, p) && stable_by_keys(spec.keys_of(old), true, p);
    assert(spec.keys_of(old) =~= size_keys(views_of(old)));
    assert forall|k: int| 0 <= k < new.len() implies #[trigger] views_of(new)[k] == views_of(old)[p[k]] by {
        assert(new[k] == old[p[k]]);
    }
    assert(reorders(views_of(old), views_of(new), p));
}

/// The summary text of a scan result: total size and entry count, the
/// ten largest entries (by own size, stably, so equal sizes keep their
/// depth-first order), and the number of skipped paths when there are
/// any.
pub fn summary_text(result: &ScanResult) -> (r: String)
    ensures
        exists|sorted: Seq<FileNodeV>|
            stably_sorted(preorder_v(result.root@), size_keys(preorder_v(result.root@)), true, sorted)
                && r@ == summary_of(*result, sorted),
{
    let refs = walk_tree(&result.root);
    let mut nodes: Vec<FileNode> = Vec::new();
    let mut i: usize = 0;
    while i < refs.len()
        invariant
            i <= refs@.len(),
            views_of(nodes@) == ref_views(refs@).take(i as int),
        decreases refs@.len() - i,
    {
        let c = refs[i].deep_clone();
        let ghost prev = views_of(nodes@);
        nodes.push(c);
        assert(views_of(nodes@) =~= prev.push(refs@[i as int]@));
        i = i + 1;
        assert(views_of(nodes@) =~= ref_views(refs@).take(i as int));
    }
    assert(views_of(nodes@) =~= preorder_v(result.root@));
    let spec = SortSpec { column: SortColumn::Size, direction: SortDirection::Descending };
    let ghost before = nodes@;
    spec.apply(&mut nodes);
    proof {
        lemma_sorted_views(before, nodes@, spec);
    }
    let ghost sv = views_of(nodes@);
    let mut out = String::new();
    out.append("total: ");
    let total = format_size(result.total_size);
    out.append(total.as_str());
    out.append(" (");
    push_dec(&mut out, result.file_count as u128);
    out.append(" entries)\n");
    out.append("top 10:\n");
    assert(out@ =~= summary_head(*result));
    let ghost head = out@;
    let n = if nodes.len() < 10 {
        nodes.len()
    } else {
        10
    };
    let mut k: usize = 0;
    while k < n
        invariant
            k <= n,
            n <= nodes@.len(),
            sv == views_of(nodes@),
            out@ == head + top_lines(sv.take(k as int)),
        decreases n - k,
    {
        let node = &nodes[k];
        let mut line = String::new();
        line.append("  ");
        let size = format_size(node.size);
        push_pad_left(&mut line, &size, 10);
        line.append("  ");
        line.append(node.path.as_str());
        line.append("\n");
        assert(sv[k as int] == node@);
        assert(line@ =~= top_line(sv[k as int]));
        out.append(line.as_str());
        assert(sv.take(k + 1).drop_last() =~= sv.take(k as int));
        k = k + 1;
    }
    let ghost mid = out@;
    if result.skipped.len() > 0 {
        out.append("skipped ");
        push_dec(&mut out, result.skipped.len() as u128);
        out.append(" path(s)\n");
    }
    assert(out@ =~= summary_of(*result, sv));
    out
}

} // verus!
