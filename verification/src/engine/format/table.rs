//! A built tree as an aligned table: one row per node (names indented by
//! depth) with total size, modification time and type, ordered by a
//! chosen column.
use vstd::prelude::*;
use crate::engine::format::{pad_left, pad_right, push_pad_left, push_pad_right, push_spaces, spaces};
use crate::engine::output::{push_zero_pad, zero_pad};
use crate::engine::tree::{lemma_child_height, tree_height, NodeType, ScanResult, SortDir, SortKey, TreeNode, TreeV};
use crate::paths::{extension_str, path_extension};
use crate::sorting::{key_views, reorders, sort_by_keys, stable_by_keys, stably_sorted, KeyV};
use crate::text::{chars_of, dec, push_char, push_dec};

verus! {

/// A row: indented name, bare name, total size, modification time, type.
pub type RowV = (Seq<char>, Seq<char>, nat, Seq<char>, Seq<char>);

/// A time in seconds as `day D HH:MM:SS`: whole days, then the time of
/// day.
pub open spec fn stamp_text(ts: u64) -> Seq<char> {
    "day "@ + dec((ts / 86400) as nat) + " "@ + zero_pad(((ts / 3600) % 24) as nat, 2) + ":"@
        + zero_pad(((ts / 60) % 60) as nat, 2) + ":"@ + zero_pad((ts % 60) as nat, 2)
}

/// The type column: `dir`, `symlink`, or a file's extension (empty when
/// it has none).
pub open spec fn type_text(t: NodeType, path: Seq<char>) -> Seq<char> {
    match t {
        NodeType::Dir => "dir"@,
        NodeType::Symlink => "symlink"@,
        NodeType::File => match path_extension(path) {
            Some(e) => e,
            None => Seq::empty(),
        },
    }
}

/// The row of a node at `indent` levels.
pub open spec fn row_of(n: TreeV, indent: nat) -> RowV {
    (
        spaces(2 * indent) + n.entry.name,
        n.entry.name,
        n.total,
        stamp_text(n.entry.modified),
        type_text(n.entry.node_type, n.entry.path),
    )
}

/// The rows of the subtree at `n`, depth-first.
pub open spec fn rows_of(n: TreeV, indent: nat) -> Seq<RowV>
    decreases n, 1nat, 0nat,
{
    seq![row_of(n, indent)] + rows_kids(n, indent + 1, n.children.len() as nat)
}

/// The rows of the subtrees of the first `k` children.
pub open spec fn rows_kids(n: TreeV, indent: nat, k: nat) -> Seq<RowV>
    decreases n, 0nat, k,
{
    if k == 0 || k > n.children.len() {
        Seq::empty()
    } else {
        rows_kids(n, indent, (k - 1) as nat) + rows_of(n.children[k - 1], indent)
    }
}

/// The sort key of a row for a column.
pub open spec fn row_key(r: RowV, key: SortKey) -> KeyV {
    match key {
        SortKey::Size => KeyV::Num(r.2),
        SortKey::Name => KeyV::Text(r.1),
        SortKey::Modified => KeyV::Text(r.3),
    }
}

/// The sort keys of rows for a column.
pub open spec fn row_keys(rs: Seq<RowV>, key: SortKey) -> Seq<KeyV> {
    rs.map_values(|r: RowV| row_key(r, key))
}

/// The header line, without its line break.
pub open spec fn table_head() -> Seq<char> {
    pad_right("Name"@, 40) + " "@ + pad_left("Size"@, 12) + " "@ + pad_left("Modified"@, 20) + " "@
        + pad_right("Type"@, 6)
}

/// `k` dashes.
pub open spec fn dashes(k: nat) -> Seq<char> {
    Seq::new(k, |i: int| '-')
}

/// A row's line.
pub open spec fn row_line(r: RowV) -> Seq<char> {
    pad_right(r.0, 40) + " "@ + pad_left(dec(r.2), 12) + " "@ + pad_left(r.3, 20) + " "@ + pad_right(
        r.4,
        6,
    ) + "\n"@
}

/// The lines of rows.
pub open spec fn rows_text(rs: Seq<RowV>) -> Seq<char>
    decreases rs.len(),
{
    if rs.len() == 0 {
        Seq::empty()
    } else {
        rows_text(rs.drop_last()) + row_line(rs.last())
    }
}

/// The table of the given rows: header, a rule as long as the header,
/// then the rows.
pub open spec fn table_of(rs: Seq<RowV>) -> Seq<char> {
    table_head() + "\n"@ + dashes(table_head().len()) + "\n"@ + rows_text(rs)
}

struct Row {
    display: String,
    raw: String,
    size: u64,
    modified: String,
    typ: String,
}

spec fn row_view(r: Row) -> RowV {
    (r.display@, r.raw@, r.size as nat, r.modified@, r.typ@)
}

spec fn row_views(v: Seq<Row>) -> Seq<RowV> {
    v.map_values(|r: Row| row_view(r))
}

fn format_timestamp(ts: u64) -> (r: String)
    ensures
        r@ == stamp_text(ts),
{
    let mut s = String::new();
    s.append("day ");
    push_dec(&mut s, (ts / 86400) as u128);
    s.append(" ");
    push_zero_pad(&mut s, (ts / 3600) % 24, 2);
    s.append(":");
    push_zero_pad(&mut s, (ts / 60) % 60, 2);
    s.append(":");
    push_zero_pad(&mut s, ts % 60, 2);
    assert(s@ =~= stamp_text(ts));
    s
}

fn type_string(node: &TreeNode) -> (r: String)
    ensures
        r@ == type_text(node.entry.node_type, node.entry.path@),
{
    match node.entry.node_type {
        NodeType::Dir => String::from_str("dir"),
        NodeType::Symlink => String::from_str("symlink"),
        NodeType::File => match extension_str(node.entry.path.as_str()) {
            Some(e) => String::from_str(e),
            None => String::new(),
        },
    }
}

fn collect_rows(node: &TreeNode, indent: usize, out: &mut Vec<Row>)
    requires
        indent + tree_height(node.tv()) + 1 <= usize::MAX / 2,
    ensures
        row_views(final(out)@) == row_views(old(out)@) + rows_of(node.tv(), indent as nat),
    decreases node,
{
    let ghost t = node.tv();
    let ghost start = row_views(out@);
    let mut display = String::new();
    push_spaces(&mut display, 2 * indent);
    display.append(node.entry.name.as_str());
    let row = Row {
        display,
        raw: node.entry.name.clone(),
        size: node.total_size,
        modified: format_timestamp(node.entry.modified),
        typ: type_string(node),
    };
    assert(row_view(row) == row_of(t, indent as nat));
    out.push(row);
    assert(row_views(out@) =~= start + seq![row_of(t, indent as nat)]);
    let ghost mid = row_views(out@);
    let mut k: usize = 0;
    while k < node.children.len()
        invariant
            k <= node.children@.len(),
            t == node.tv(),
            t.children.len() == node.children@.len(),
            indent + tree_height(t) + 1 <= usize::MAX / 2,
            row_views(out@) == mid + rows_kids(t, (indent + 1) as nat, k as nat),
        decreases node.children@.len() - k,
    {
        assert(t.children[k as int] == node.children@[k as int].tv());
        proof {
            lemma_child_height(t, k as int);
        }
        collect_rows(&node.children[k], indent + 1, out);
        k = k + 1;
        assert(row_views(out@) =~= mid + rows_kids(t, (indent + 1) as nat, k as nat));
    }
    assert(row_views(out@) =~= start + rows_of(t, indent as nat));
}

fn push_row(out: &mut String, r: &Row)
    ensures
        final(out)@ == old(out)@ + row_line(row_view(*r)),
{
    let mut l = String::new();
    push_pad_right(&mut l, r.display.as_str(), 40);
    l.append(" ");
    let mut n = String::new();
    push_dec(&mut n, r.size as u128);
    push_pad_left(&mut l, &n, 12);
    l.append(" ");
    push_pad_left(&mut l, &r.modified, 20);
    l.append(" ");
    push_pad_right(&mut l, r.typ.as_str(), 6);
    l.append("\n");
    assert(l@ =~= row_line(row_view(*r)));
    out.append(l.as_str());
}

fn key_of(r: &Row, key: SortKey) -> (k: crate::sorting::SortKey)
    ensures
        k.key_view() == row_key(row_view(*r), key),
{
    match key {
        SortKey::Size => crate::sorting::SortKey::Num(r.size),
        SortKey::Name => crate::sorting::SortKey::Text(chars_of(r.raw.as_str())),
        SortKey::Modified => crate::sorting::SortKey::Text(chars_of(r.modified.as_str())),
    }
}

proof fn lemma_reorders_rows(old: Seq<Row>, new: Seq<Row>, p: Seq<int>)
    requires
        reorders(old, new, p),
    ensures
        reorders(row_views(old), row_views(new), p),
{
    assert forall|k: int| 0 <= k < new.len() implies #[trigger] row_views(new)[k] == row_views(old)[p[k]] by {
        assert(new[k] == old[p[k]]);
    }
}

/// Renders the result as an aligned table ordered by `sort_key` (size
/// when absent) in direction `sort_dir` (descending when absent); rows of
/// equal key keep their depth-first order.
pub fn format(result: &ScanResult, sort_key: Option<SortKey>, sort_dir: Option<SortDir>) -> (r: String)
    requires
        tree_height(result.root.tv()) + 1 <= usize::MAX / 2,
    ensures
        ({
            let key = match sort_key {
                Some(k) => k,
                None => SortKey::Size,
            };
            let desc = match sort_dir {
                Some(d) => d == SortDir::Desc,
                None => true,
            };
            let rows = rows_of(result.root.tv(), 0);
            exists|sorted: Seq<RowV>|
                stably_sorted(rows, row_keys(rows, key), desc, sorted) && r@ == table_of(sorted)
        }),
{
    let mut rows: Vec<Row> = Vec::new();
    collect_rows(&result.root, 0, &mut rows);
    let ghost rv = row_views(rows@);
    assert(rv =~= rows_of(result.root.tv(), 0));
    let key = match sort_key {
        Some(k) => k,
        None => SortKey::Size,
    };
    let desc = match sort_dir {
        Some(d) => d == SortDir::Desc,
        None => true,
    };
    let mut keys: Vec<crate::sorting::SortKey> = Vec::new();
    let mut i: usize = 0;
    while i < rows.len()
        invariant
            i <= rows@.len(),
            key_views(keys@) == row_keys(row_views(rows@), key).take(i as int),
        decreases rows@.len() - i,
    {
        let k = key_of(&rows[i], key);
        let ghost prev = key_views(keys@);
        keys.push(k);
        assert(key_views(keys@) =~= prev.push(k.key_view()));
        i = i + 1;
        assert(key_views(keys@) =~= row_keys(row_views(rows@), key).take(i as int));
    }
    assert(key_views(keys@) =~= row_keys(rv, key));
    let ghost orig = rows@;
    let (sorted, Ghost(p)) = sort_by_keys(rows, keys, desc);
    proof {
        lemma_reorders_rows(orig, sorted@, p);
        assert(stably_sorted(rv, row_keys(rv, key), desc, row_views(sorted@)));
    }
    let mut header = String::new();
    push_pad_right(&mut header, "Name", 40);
    header.append(" ");
    let size_label = String::from_str("Size");
    push_pad_left(&mut header, &size_label, 12);
    header.append(" ");
    let mod_label = String::from_str("Modified");
    push_pad_left(&mut header, &mod_label, 20);
    header.append(" ");
    push_pad_right(&mut header, "Type", 6);
    assert(header@ =~= table_head());
    let width = header.as_str().unicode_len();
    let mut out = String::new();
    out.append(header.as_str());
    out.append("\n");
    let mut j: usize = 0;
    while j < width
        invariant
            j <= width,
            out@ == table_head() + "\n"@ + dashes(j as nat),
        decreases width - j,
    {
        push_char(&mut out, '-');
        j = j + 1;
        assert(out@ =~= table_head() + "\n"@ + dashes(j as nat));
    }
    out.append("\n");
    let ghost sv = row_views(sorted@);
    let ghost head = out@;
    let mut k: usize = 0;
    while k < sorted.len()
        invariant
            k <= sorted@.len(),
            sv == row_views(sorted@),
            out@ == head + rows_text(sv.take(k as int)),
        decreases sorted@.len() - k,
    {
        push_row(&mut out, &sorted[k]);
        assert(sv.take(k + 1).drop_last() =~= sv.take(k as int));
        k = k + 1;
    }
    assert(sv.take(k as int) =~= sv);
    assert(out@ =~= table_of(sv));
    out
}

} // verus!
