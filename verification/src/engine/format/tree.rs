//! A built tree as indented text with branch glyphs, like the `tree`
//! command: a line per node with its name, a `/` for directories and its
//! total size.
use vstd::prelude::*;
use crate::domain::{iec_unit, iec_unit_str};
use crate::engine::tree::{NodeType, ScanResult, TreeNode, TreeV};
use crate::numfmt::{f64_value, f64_value_exec, no_decimal, one_decimal, push_no_decimal, push_one_decimal, unit_index, unit_index_exec};

verus! {

/// A byte count as a 64-bit float divided by 1024 while at least 1024:
/// with no decimal and its unit up to TiB, with one decimal in PiB after
/// that.
pub open spec fn size_text(bytes: nat) -> Seq<char> {
    let r = f64_value(bytes);
    let k = unit_index(r, 0, 5);
    if k < 5 {
        no_decimal(r, k) + " "@ + iec_unit(k)
    } else {
        one_decimal(r, k) + " PiB"@
    }
}

fn human_size(bytes: u64) -> (s: String)
    ensures
        s@ == size_text(bytes as nat),
{
    let r = f64_value_exec(bytes);
    let k = unit_index_exec(r, 5);
    let mut s = String::new();
    if k < 5 {
        push_no_decimal(&mut s, r, k);
        s.append(" ");
        s.append(iec_unit_str(k));
    } else {
        push_one_decimal(&mut s, r, k);
        s.append(" PiB");
    }
    s
}

/// `/` after a directory's name, nothing after other names.
pub open spec fn suffix(t: NodeType) -> Seq<char> {
    if t == NodeType::Dir {
        "/"@
    } else {
        ""@
    }
}

/// A node's name, suffix and total size, ending the line.
pub open spec fn node_line(n: TreeV) -> Seq<char> {
    n.entry.name + suffix(n.entry.node_type) + "  ["@ + size_text(n.total) + "]\n"@
}

/// The connector in front of a child.
pub open spec fn connector(is_last: bool) -> Seq<char> {
    if is_last {
        "└── "@
    } else {
        "├── "@
    }
}

/// What the lines of a child's children continue its prefix with.
pub open spec fn extension(is_last: bool) -> Seq<char> {
    if is_last {
        "    "@
    } else {
        "│   "@
    }
}

/// The lines of a child and of its subtree.
pub open spec fn child_text(n: TreeV, prefix: Seq<char>, is_last: bool) -> Seq<char>
    decreases n, 1nat, 0nat,
{
    prefix + connector(is_last) + node_line(n) + kids_text(
        n,
        prefix + extension(is_last),
        n.children.len() as nat,
    )
}

/// The lines of the first `k` children of `n`, the last child of `n`
/// closing the level.
pub open spec fn kids_text(n: TreeV, prefix: Seq<char>, k: nat) -> Seq<char>
    decreases n, 0nat, k,
{
    if k == 0 || k > n.children.len() {
        Seq::empty()
    } else {
        kids_text(n, prefix, (k - 1) as nat) + child_text(
            n.children[k - 1],
            prefix,
            k == n.children.len(),
        )
    }
}

/// The whole rendering: the root's line without a connector, then its
/// children.
pub open spec fn tree_text(r: ScanResult) -> Seq<char> {
    let t = r.root.tv();
    node_line(t) + kids_text(t, Seq::empty(), t.children.len() as nat)
}

fn push_node_line(out: &mut String, node: &TreeNode)
    ensures
        final(out)@ == old(out)@ + node_line(node.tv()),
{
    let mut line = String::new();
    line.append(node.entry.name.as_str());
    if node.entry.node_type == NodeType::Dir {
        line.append("/");
    } else {
        line.append("");
    }
    line.append("  [");
    let hs = human_size(node.total_size);
    line.append(hs.as_str());
    line.append("]\n");
    assert(line@ =~= node_line(node.tv()));
    out.append(line.as_str());
}

fn render_kids(node: &TreeNode, prefix: &str, out: &mut String)
    ensures
        final(out)@ == old(out)@ + kids_text(node.tv(), prefix@, node.children@.len() as nat),
    decreases node, 0nat,
{
    let ghost t = node.tv();
    let ghost start = out@;
    let mut k: usize = 0;
    while k < node.children.len()
        invariant
            k <= node.children@.len(),
            t == node.tv(),
            t.children.len() == node.children@.len(),
            out@ == start + kids_text(t, prefix@, k as nat),
        decreases node.children@.len() - k,
    {
        assert(t.children[k as int] == node.children@[k as int].tv());
        let is_last = k + 1 == node.children.len();
        render_child(&node.children[k], prefix, is_last, out);
        k = k + 1;
        assert(out@ =~= start + kids_text(t, prefix@, k as nat));
    }
}

fn render_child(node: &TreeNode, prefix: &str, is_last: bool, out: &mut String)
    ensures
        final(out)@ == old(out)@ + child_text(node.tv(), prefix@, is_last),
    decreases node, 1nat,
{
    let ghost start = out@;
    out.append(prefix);
    if is_last {
        out.append("└── ");
    } else {
        out.append("├── ");
    }
    push_node_line(out, node);
    let mut cp = String::new();
    cp.append(prefix);
    if is_last {
        cp.append("    ");
    } else {
        cp.append("│   ");
    }
    render_kids(node, cp.as_str(), out);
    assert(out@ =~= start + child_text(node.tv(), prefix@, is_last));
}

/// Renders the result as an indented tree.
pub fn format(result: &ScanResult) -> (r: String)
    ensures
        r@ == tree_text(*result),
{
    let mut out = String::new();
    push_node_line(&mut out, &result.root);
    render_kids(&result.root, "", &mut out);
    proof {
        reveal_strlit("");
        assert(""@ =~= Seq::<char>::empty());
    }
    assert(out@ =~= tree_text(*result));
    out
}

} // verus!
