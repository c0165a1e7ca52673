//! Renderings of a [`ScanResult`]: an aligned table, a tree with branch
//! glyphs, and the value tree that the JSON and JSON Lines writers
//! serialise (one object per node, children embedded).
use vstd::prelude::*;
pub mod json;
pub mod jsonl;
pub mod table;
pub mod tree;
use crate::domain::{
    debug_name, debug_name_str, format_size, format_size_text, preorder_v, ref_views, walk_tree,
    FileNode, FileNodeV, FileType, ScanResult,
};
use crate::text::{dec, push_char, push_dec, str_eq, to_lowercase, unicode_lowercase};

verus! {

/// Output format.
#[derive(Debug, Clone, Copy, PartialEq, Eq, Structural)]
pub enum OutputFormat {
    /// Aligned columns: size, time, type, path.
    Table,
    /// One JSON object for the root, children embedded.
    Json,
    /// One JSON object per line, depth-first.
    Jsonl,
    /// Indented tree with branch glyphs.
    Tree,
}

/// The format named by an already lower-cased flag value.
pub open spec fn format_named(l: Seq<char>) -> Option<OutputFormat> {
    if l == "table"@ {
        Some(OutputFormat::Table)
    } else if l == "json"@ {
        Some(OutputFormat::Json)
    } else if l == "jsonl"@ {
        Some(OutputFormat::Jsonl)
    } else if l == "tree"@ {
        Some(OutputFormat::Tree)
    } else {
        None
    }
}

impl OutputFormat {
    /// The format named by a flag value, ignoring case.
    pub fn parse(s: &str) -> (r: Option<OutputFormat>)
        ensures
            r == format_named(unicode_lowercase(s@)),
    {
        let lower = to_lowercase(s);
        let l = lower.as_str();
        if str_eq(l, "table") {
            Some(OutputFormat::Table)
        } else if str_eq(l, "json") {
            Some(OutputFormat::Json)
        } else if str_eq(l, "jsonl") {
            Some(OutputFormat::Jsonl)
        } else if str_eq(l, "tree") {
            Some(OutputFormat::Tree)
        } else {
            None
        }
    }
}

/// The short label of a type in JSON and tree output.
pub open spec fn type_label(ft: FileType) -> Seq<char> {
    match ft {
        FileType::Audio => "audio"@,
        FileType::Video => "video"@,
        FileType::Image => "image"@,
        FileType::Document => "document"@,
        FileType::Code => "code"@,
        FileType::Archive => "archive"@,
        FileType::Directory => "dir"@,
        FileType::Other => "other"@,
    }
}

/// Exec form of [`type_label`].
pub fn type_label_str(ft: FileType) -> (r: &'static str)
    ensures
        r@ == type_label(ft),
{
    match ft {
        FileType::Audio => "audio",
        FileType::Video => "video",
        FileType::Image => "image",
        FileType::Document => "document",
        FileType::Code => "code",
        FileType::Archive => "archive",
        FileType::Directory => "dir",
        FileType::Other => "other",
    }
}

// ── table ────────────────────────────────────────────────────────────────

/// `k` spaces.
pub open spec fn spaces(k: nat) -> Seq<char> {
    Seq::new(k, |i: int| ' ')
}

/// `s` right-aligned in `w` columns.
pub open spec fn pad_left(s: Seq<char>, w: nat) -> Seq<char> {
    if s.len() < w {
        spaces((w - s.len()) as nat) + s
    } else {
        s
    }
}

/// `s` left-aligned in `w` columns.
pub open spec fn pad_right(s: Seq<char>, w: nat) -> Seq<char> {
    if s.len() < w {
        s + spaces((w - s.len()) as nat)
    } else {
        s
    }
}

/// The size column of a node.
pub open spec fn size_col(n: FileNodeV) -> Seq<char> {
    format_size_text(n.size as nat)
}

/// The time column of a node.
pub open spec fn mtime_col(n: FileNodeV) -> Seq<char> {
    dec(n.modified as nat)
}

/// The type column of a node.
pub open spec fn type_col(n: FileNodeV) -> Seq<char> {
    debug_name(n.file_type)
}

/// The widest value of a column over `ns` (zero for none).
pub open spec fn col_width(ns: Seq<FileNodeV>, col: spec_fn(FileNodeV) -> Seq<char>) -> nat
    decreases ns.len(),
{
    if ns.len() == 0 {
        0
    } else {
        let w = col_width(ns.drop_last(), col);
        let l = col(ns.last()).len();
        if l > w {
            l
        } else {
            w
        }
    }
}

/// One table row with the given column widths.
pub open spec fn table_row(n: FileNodeV, ws: nat, wm: nat, wt: nat) -> Seq<char> {
    pad_left(size_col(n), ws) + "  "@ + pad_left(mtime_col(n), wm) + "  "@ + pad_right(type_col(n), wt)
        + "  "@ + n.path + "\n"@
}

/// The rows of `ns` with the given widths.
pub open spec fn table_rows(ns: Seq<FileNodeV>, ws: nat, wm: nat, wt: nat) -> Seq<char>
    decreases ns.len(),
{
    if ns.len() == 0 {
        Seq::empty()
    } else {
        table_rows(ns.drop_last(), ws, wm, wt) + table_row(ns.last(), ws, wm, wt)
    }
}

/// The table header.
pub open spec fn table_header() -> Seq<char> {
    "        SIZE                MTIME  TYPE        PATH\n"@
}

/// The table of a tree: the header, then one row per node in depth-first
/// order, each column as wide as its widest value.
pub open spec fn table_text(root: FileNodeV) -> Seq<char> {
    let ns = preorder_v(root);
    table_header() + table_rows(
        ns,
        col_width(ns, |n: FileNodeV| size_col(n)),
        col_width(ns, |n: FileNodeV| mtime_col(n)),
        col_width(ns, |n: FileNodeV| type_col(n)),
    )
}

pub(crate) fn push_spaces(s: &mut String, k: usize)
    ensures
        final(s)@ == old(s)@ + spaces(k as nat),
{
    let mut i: usize = 0;
    while i < k
        invariant
            i <= k,
            s@ == old(s)@ + spaces(i as nat),
        decreases k - i,
    {
        push_char(s, ' ');
        i = i + 1;
        assert(s@ =~= old(s)@ + spaces(i as nat));
    }
}

pub(crate) fn push_pad_left(s: &mut String, t: &String, w: usize)
    ensures
        final(s)@ == old(s)@ + pad_left(t@, w as nat),
{
    let l = t.as_str().unicode_len();
    if l < w {
        push_spaces(s, w - l);
    }
    s.append(t.as_str());
    assert(final(s)@ =~= old(s)@ + pad_left(t@, w as nat));
}

pub(crate) fn push_pad_right(s: &mut String, t: &str, w: usize)
    ensures
        final(s)@ == old(s)@ + pad_right(t@, w as nat),
{
    let l = t.unicode_len();
    s.append(t);
    if l < w {
        push_spaces(s, w - l);
    }
    assert(final(s)@ =~= old(s)@ + pad_right(t@, w as nat));
}

fn push_table_row(out: &mut String, n: &FileNode, size_str: &String, mtime_str: &String, ws: usize, wm: usize, wt: usize)
    requires
        size_str@ == size_col(n@),
        mtime_str@ == mtime_col(n@),
    ensures
        final(out)@ == old(out)@ + table_row(n@, ws as nat, wm as nat, wt as nat),
{
    let ghost b = out@;
    let ghost v = n@;
    push_pad_left(out, size_str, ws);
    let ghost p1 = pad_left(size_col(v), ws as nat);
    out.append("  ");
    proof { vstd::seq_lib::lemma_concat_associative(b, p1, "  "@); }
    let ghost p2 = p1 + "  "@;
    push_pad_left(out, mtime_str, wm);
    proof { vstd::seq_lib::lemma_concat_associative(b, p2, pad_left(mtime_col(v), wm as nat)); }
    let ghost p3 = p2 + pad_left(mtime_col(v), wm as nat);
    out.append("  ");
    proof { vstd::seq_lib::lemma_concat_associative(b, p3, "  "@); }
    let ghost p4 = p3 + "  "@;
    push_pad_right(out, debug_name_str(n.file_type), wt);
    proof { vstd::seq_lib::lemma_concat_associative(b, p4, pad_right(type_col(v), wt as nat)); }
    let ghost p5 = p4 + pad_right(type_col(v), wt as nat);
    out.append("  ");
    proof { vstd::seq_lib::lemma_concat_associative(b, p5, "  "@); }
    let ghost p6 = p5 + "  "@;
    out.append(n.path.as_str());
    proof { vstd::seq_lib::lemma_concat_associative(b, p6, v.path); }
    let ghost p7 = p6 + v.path;
    out.append("\n");
    proof { vstd::seq_lib::lemma_concat_associative(b, p7, "\n"@); }
}

/// The table of the result's tree.
pub fn render_table(result: &ScanResult) -> (r: String)
    ensures
        r@ == table_text(result.root@),
{
    let nodes = walk_tree(&result.root);
    let ghost ns = ref_views(nodes@);
    let mut sizes: Vec<String> = Vec::new();
    let mut times: Vec<String> = Vec::new();
    let mut ws: usize = 0;
    let mut wm: usize = 0;
    let mut wt: usize = 0;
    let mut i: usize = 0;
    while i < nodes.len()
        invariant
            i <= nodes@.len(),
            ns == ref_views(nodes@),
            ns.len() == nodes@.len(),
            sizes@.len() == i,
            times@.len() == i,
            forall|j: int| 0 <= j < i ==> (#[trigger] sizes@[j])@ == size_col(ns[j]),
            forall|j: int| 0 <= j < i ==> (#[trigger] times@[j])@ == mtime_col(ns[j]),
            ws == col_width(ns.take(i as int), |n: FileNodeV| size_col(n)),
            wm == col_width(ns.take(i as int), |n: FileNodeV| mtime_col(n)),
            wt == col_width(ns.take(i as int), |n: FileNodeV| type_col(n)),
        decreases nodes@.len() - i,
    {
        let n = nodes[i];
        assert(ns[i as int] == n@);
        assert(ns.take(i + 1).drop_last() =~= ns.take(i as int));
        let size_str = format_size(n.size);
        let mut mtime_str = String::new();
        push_dec(&mut mtime_str, n.modified as u128);
        let type_str = debug_name_str(n.file_type);
        let ls = size_str.as_str().unicode_len();
        let lm = mtime_str.as_str().unicode_len();
        let lt = type_str.unicode_len();
        if ls > ws {
            ws = ls;
        }
        if lm > wm {
            wm = lm;
        }
        if lt > wt {
            wt = lt;
        }
        sizes.push(size_str);
        times.push(mtime_str);
        i = i + 1;
    }
    assert(ns.take(i as int) =~= ns);
    let mut out = String::from_str("        SIZE                MTIME  TYPE        PATH\n");
    let mut k: usize = 0;
    while k < nodes.len()
        invariant
            k <= nodes@.len(),
            ns == ref_views(nodes@),
            ns.len() == nodes@.len(),
            sizes@.len() == nodes@.len(),
            times@.len() == nodes@.len(),
            forall|j: int| 0 <= j < nodes@.len() ==> (#[trigger] sizes@[j])@ == size_col(ns[j]),
            forall|j: int| 0 <= j < nodes@.len() ==> (#[trigger] times@[j])@ == mtime_col(ns[j]),
            out@ == table_header() + table_rows(ns.take(k as int), ws as nat, wm as nat, wt as nat),
        decreases nodes@.len() - k,
    {
        let n = nodes[k];
        assert(ns[k as int] == n@);
        let ghost before = out@;
        push_table_row(&mut out, n, &sizes[k], &times[k], ws, wm, wt);
        assert(ns.take(k + 1).drop_last() =~= ns.take(k as int));
        proof {
            vstd::seq_lib::lemma_concat_associative(
                table_header(),
                table_rows(ns.take(k as int), ws as nat, wm as nat, wt as nat),
                table_row(n@, ws as nat, wm as nat, wt as nat),
            );
        }
        k = k + 1;
    }
    assert(ns.take(k as int) =~= ns);
    out
}

// ── tree ─────────────────────────────────────────────────────────────────

/// The branch glyph of a line.
pub open spec fn branch(prefix: Seq<char>, is_last: bool) -> Seq<char> {
    if prefix.len() == 0 {
        Seq::empty()
    } else if is_last {
        "└── "@
    } else {
        "├── "@
    }
}

/// The prefix of a node's children: the node's prefix, then a blank
/// column below the last child or a bar below the others.
pub open spec fn child_prefix(prefix: Seq<char>, is_last: bool) -> Seq<char> {
    if is_last {
        prefix + "    "@
    } else {
        prefix + "│   "@
    }
}

/// The line of a node: its path, size and type after its prefix and
/// glyph.
pub open spec fn tree_line(n: FileNodeV, prefix: Seq<char>, is_last: bool) -> Seq<char> {
    prefix + branch(prefix, is_last) + n.path + " ["@ + format_size_text(n.size as nat) + ", "@
        + type_label(n.file_type) + "]\n"@
}

/// The lines of the subtree at `n`: the node's line, then its children.
pub open spec fn tree_lines(n: FileNodeV, prefix: Seq<char>, is_last: bool) -> Seq<char>
    decreases n, 1nat, 0nat,
{
    tree_line(n, prefix, is_last) + tree_children(n, child_prefix(prefix, is_last), n.children.len() as nat)
}

/// The lines of the first `k` children of `n`; the last child of `n`
/// gets the closing glyph.
pub open spec fn tree_children(n: FileNodeV, prefix: Seq<char>, k: nat) -> Seq<char>
    decreases n, 0nat, k,
{
    if k == 0 || k > n.children.len() {
        Seq::empty()
    } else {
        tree_children(n, prefix, (k - 1) as nat) + tree_lines(n.children[k - 1], prefix, k == n.children.len())
    }
}

fn push_tree_line(out: &mut String, node: &FileNode, prefix: &str, is_last: bool)
    ensures
        final(out)@ == old(out)@ + tree_line(node@, prefix@, is_last),
{
    let ghost b = out@;
    let ghost v = node@;
    let mut head = String::from_str(prefix);
    if !prefix.is_empty() {
        if is_last {
            head.append("└── ");
        } else {
            head.append("├── ");
        }
    }
    assert(head@ =~= prefix@ + branch(prefix@, is_last));
    out.append(head.as_str());
    let ghost p1 = prefix@ + branch(prefix@, is_last);
    out.append(node.path.as_str());
    proof { vstd::seq_lib::lemma_concat_associative(b, p1, v.path); }
    let ghost p2 = p1 + v.path;
    out.append(" [");
    proof { vstd::seq_lib::lemma_concat_associative(b, p2, " ["@); }
    let ghost p3 = p2 + " ["@;
    let sz = format_size(node.size);
    out.append(sz.as_str());
    proof { vstd::seq_lib::lemma_concat_associative(b, p3, sz@); }
    let ghost p4 = p3 + sz@;
    out.append(", ");
    proof { vstd::seq_lib::lemma_concat_associative(b, p4, ", "@); }
    let ghost p5 = p4 + ", "@;
    out.append(type_label_str(node.file_type));
    proof { vstd::seq_lib::lemma_concat_associative(b, p5, type_label(v.file_type)); }
    let ghost p6 = p5 + type_label(v.file_type);
    out.append("]\n");
    proof { vstd::seq_lib::lemma_concat_associative(b, p6, "]\n"@); }
}

/// Writes the subtree at `node` as tree lines.
pub fn write_tree_node(node: &FileNode, prefix: &str, is_last: bool, out: &mut String)
    ensures
        final(out)@ == old(out)@ + tree_lines(node@, prefix@, is_last),
    decreases node,
{
    let ghost start = out@;
    push_tree_line(out, node, prefix, is_last);
    let ghost line_end = out@;
    let mut cp = String::new();
    cp.append(prefix);
    if is_last {
        cp.append("    ");
    } else {
        cp.append("│   ");
    }
    assert(cp@ == child_prefix(prefix@, is_last));
    let n = node.children.len();
    let mut i: usize = 0;
    while i < n
        invariant
            n == node.children@.len(),
            i <= n,
            cp@ == child_prefix(prefix@, is_last),
            out@ == line_end + tree_children(node@, cp@, i as nat),
        decreases n - i,
    {
        assert(node@.children[i as int] == node.children@[i as int]@);
        write_tree_node(&node.children[i], cp.as_str(), i + 1 == n, out);
        i = i + 1;
        assert(out@ =~= line_end + tree_children(node@, cp@, i as nat));
    }
    assert(out@ =~= start + tree_lines(node@, prefix@, is_last));
}

/// The tree of the result, drawn from the root without prefix.
pub fn render_tree(result: &ScanResult) -> (r: String)
    ensures
        r@ == tree_lines(result.root@, Seq::empty(), true),
{
    let mut s = String::new();
    proof {
        reveal_strlit("");
    }
    write_tree_node(&result.root, "", true, &mut s);
    assert(s@ =~= tree_lines(result.root@, Seq::empty(), true));
    s
}

// ── JSON value tree ──────────────────────────────────────────────────────

/// A node as the JSON writers serialise it.
#[derive(Debug)]
pub struct JsonNode {
    pub path: String,
    pub size: u64,
    pub modified: u64,
    pub file_type: &'static str,
    pub children: Vec<JsonNode>,
}

/// The value of a [`JsonNode`].
pub struct JsonNodeV {
    pub path: Seq<char>,
    pub size: u64,
    pub modified: u64,
    pub file_type: Seq<char>,
    pub children: Seq<JsonNodeV>,
}

impl JsonNode {
    /// The value of this tree.
    pub open spec fn v(self) -> JsonNodeV
        decreases self,
    {
        JsonNodeV {
            path: self.path@,
            size: self.size,
            modified: self.modified,
            file_type: self.file_type@,
            children: Seq::new(
                self.children@.len(),
                |i: int|
                    if 0 <= i < self.children@.len() {
                        self.children@[i].v()
                    } else {
                        arbitrary()
                    },
            ),
        }
    }
}

/// The JSON value of a tree.
pub open spec fn json_of(n: FileNodeV) -> JsonNodeV
    decreases n,
{
    JsonNodeV {
        path: n.path,
        size: n.size,
        modified: n.modified,
        file_type: type_label(n.file_type),
        children: Seq::new(
            n.children.len(),
            |i: int|
                if 0 <= i < n.children.len() {
                    json_of(n.children[i])
                } else {
                    arbitrary()
                },
        ),
    }
}

/// The JSON value of the tree at `node`.
pub fn to_json(node: &FileNode) -> (r: JsonNode)
    ensures
        r.v() == json_of(node@),
    decreases node,
{
    let mut children: Vec<JsonNode> = Vec::new();
    let mut i: usize = 0;
    while i < node.children.len()
        invariant
            i <= node.children@.len(),
            children@.len() == i,
            forall|j: int| 0 <= j < i ==> (#[trigger] children@[j]).v() == json_of(node@.children[j]),
        decreases node.children@.len() - i,
    {
        assert(node@.children[i as int] == node.children@[i as int]@);
        children.push(to_json(&node.children[i]));
        i = i + 1;
    }
    let r = JsonNode {
        path: node.path.clone(),
        size: node.size,
        modified: node.modified,
        file_type: type_label_str(node.file_type),
        children,
    };
    assert(r.v().children =~= json_of(node@).children);
    r
}

/// The JSON values of every node of the result's tree, one per line of
/// JSON Lines output, in depth-first pre-order.
pub fn jsonl_values(result: &ScanResult) -> (r: Vec<JsonNode>)
    ensures
        r@.len() == preorder_v(result.root@).len(),
        forall|i: int| 0 <= i < r@.len() ==> (#[trigger] r@[i]).v() == json_of(preorder_v(result.root@)[i]),
{
    let nodes = walk_tree(&result.root);
    let mut out: Vec<JsonNode> = Vec::new();
    let mut i: usize = 0;
    while i < nodes.len()
        invariant
            i <= nodes@.len(),
            ref_views(nodes@) == preorder_v(result.root@),
            out@.len() == i,
            forall|j: int| 0 <= j < i ==> (#[trigger] out@[j]).v() == json_of(preorder_v(result.root@)[j]),
        decreases nodes@.len() - i,
    {
        assert(ref_views(nodes@)[i as int] == nodes@[i as int]@);
        out.push(to_json(nodes[i]));
        i = i + 1;
    }
    out
}

} // verus!
