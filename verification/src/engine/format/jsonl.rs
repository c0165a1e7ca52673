//! A built tree as JSON Lines: a summary line with the totals, then one
//! flat object per node in depth-first order, with its depth.
use vstd::prelude::*;
use crate::engine::format::json::{escaped, push_escaped, type_label, type_label_str};
use crate::engine::tree::{lemma_child_height, tree_height, ScanResult, TreeNode, TreeV};
use crate::text::{dec, push_dec};

verus! {

/// A node's line at `depth`.
pub open spec fn node_line(n: TreeV, depth: nat) -> Seq<char> {
    "{"@ + "\"name\":\""@ + escaped(n.entry.name) + "\","@ + "\"path\":\""@ + escaped(n.entry.path)
        + "\","@ + "\"size\":"@ + dec(n.entry.size as nat) + ","@ + "\"total_size\":"@ + dec(n.total)
        + ","@ + "\"modified\":"@ + dec(n.entry.modified as nat) + ","@ + "\"type\":\""@ + type_label(
        n.entry.node_type,
    ) + "\","@ + "\"depth\":"@ + dec(depth) + "}"@ + "\n"@
}

/// The lines of the subtree at `n`, which sits at `depth`.
pub open spec fn lines_of(n: TreeV, depth: nat) -> Seq<char>
    decreases n, 1nat, 0nat,
{
    node_line(n, depth) + kid_lines(n, depth + 1, n.children.len() as nat)
}

/// The lines of the subtrees of the first `k` children of `n`, which sit
/// at `depth`.
pub open spec fn kid_lines(n: TreeV, depth: nat, k: nat) -> Seq<char>
    decreases n, 0nat, k,
{
    if k == 0 || k > n.children.len() {
        Seq::empty()
    } else {
        kid_lines(n, depth, (k - 1) as nat) + lines_of(n.children[k - 1], depth)
    }
}

/// The whole output: the summary line, then the root's subtree.
pub open spec fn jsonl_text(r: ScanResult) -> Seq<char> {
    "{\"total_size\":"@ + dec(r.total_size as nat) + ",\"entry_count\":"@ + dec(r.entry_count as nat)
        + "}\n"@ + lines_of(r.root.tv(), 0)
}

fn push_line(out: &mut String, node: &TreeNode, depth: u32)
    ensures
        final(out)@ == old(out)@ + node_line(node.tv(), depth as nat),
{
    let mut l = String::new();
    l.append("{");
    l.append("\"name\":\"");
    push_escaped(&mut l, node.entry.name.as_str());
    l.append("\",");
    l.append("\"path\":\"");
    push_escaped(&mut l, node.entry.path.as_str());
    l.append("\",");
    l.append("\"size\":");
    push_dec(&mut l, node.entry.size as u128);
    l.append(",");
    l.append("\"total_size\":");
    push_dec(&mut l, node.total_size as u128);
    l.append(",");
    l.append("\"modified\":");
    push_dec(&mut l, node.entry.modified as u128);
    l.append(",");
    l.append("\"type\":\"");
    l.append(type_label_str(node.entry.node_type));
    l.append("\",");
    l.append("\"depth\":");
    push_dec(&mut l, depth as u128);
    l.append("}");
    l.append("\n");
    assert(l@ =~= node_line(node.tv(), depth as nat));
    out.append(l.as_str());
}

fn collect_lines(node: &TreeNode, depth: u32, out: &mut String)
    requires
        depth + tree_height(node.tv()) <= u32::MAX,
    ensures
        final(out)@ == old(out)@ + lines_of(node.tv(), depth as nat),
    decreases node,
{
    let ghost t = node.tv();
    let ghost start = out@;
    push_line(out, node, depth);
    let ghost mid = out@;
    let mut k: usize = 0;
    while k < node.children.len()
        invariant
            k <= node.children@.len(),
            t == node.tv(),
            t.children.len() == node.children@.len(),
            depth + tree_height(t) <= u32::MAX,
            out@ == mid + kid_lines(t, (depth + 1) as nat, k as nat),
        decreases node.children@.len() - k,
    {
        assert(t.children[k as int] == node.children@[k as int].tv());
        proof {
            lemma_child_height(t, k as int);
        }
        collect_lines(&node.children[k], depth + 1, out);
        k = k + 1;
        assert(out@ =~= mid + kid_lines(t, (depth + 1) as nat, k as nat));
    }
    assert(out@ =~= start + lines_of(t, depth as nat));
}

/// Renders the result as JSON Lines.
pub fn format(result: &ScanResult) -> (r: String)
    requires
        tree_height(result.root.tv()) <= u32::MAX,
    ensures
        r@ == jsonl_text(*result),
{
    let mut out = String::new();
    out.append("{\"total_size\":");
    push_dec(&mut out, result.total_size as u128);
    out.append(",\"entry_count\":");
    push_dec(&mut out, result.entry_count as u128);
    out.append("}\n");
    collect_lines(&result.root, 0, &mut out);
    assert(out@ =~= jsonl_text(*result));
    out
}

} // verus!
