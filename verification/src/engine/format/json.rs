//! A built tree as indented JSON: the totals, then the root object with
//! its children embedded.
use vstd::prelude::*;
use crate::engine::format::{push_spaces, spaces};
use crate::engine::tree::{lemma_child_height, tree_height, NodeType, ScanResult, TreeNode, TreeV};
use crate::text::{dec, push_char, push_dec};

verus! {

/// A character as it stands inside a JSON string: backslash, quote,
/// newline, carriage return and tab escaped, every other character as is.
pub open spec fn esc_char(c: char) -> Seq<char> {
    if c == '\\' {
        seq!['\\', '\\']
    } else if c == '"' {
        seq!['\\', '"']
    } else if c == '\n' {
        seq!['\\', 'n']
    } else if c == '\r' {
        seq!['\\', 'r']
    } else if c == '\t' {
        seq!['\\', 't']
    } else {
        seq![c]
    }
}

/// A text with every character escaped by [`esc_char`].
pub open spec fn escaped(s: Seq<char>) -> Seq<char>
    decreases s.len(),
{
    if s.len() == 0 {
        Seq::empty()
    } else {
        escaped(s.drop_last()) + esc_char(s.last())
    }
}

/// Appends `s` escaped for a JSON string.
pub(crate) fn push_escaped(out: &mut String, s: &str)
    ensures
        final(out)@ == old(out)@ + escaped(s@),
{
    let cs = crate::text::chars_of(s);
    let ghost start = out@;
    let mut i: usize = 0;
    while i < cs.len()
        invariant
            i <= cs@.len(),
            cs@ == s@,
            out@ == start + escaped(cs@.take(i as int)),
        decreases cs@.len() - i,
    {
        let c = cs[i];
        if c == '\\' {
            push_char(out, '\\');
            push_char(out, '\\');
        } else if c == '"' {
            push_char(out, '\\');
            push_char(out, '"');
        } else if c == '\n' {
            push_char(out, '\\');
            push_char(out, 'n');
        } else if c == '\r' {
            push_char(out, '\\');
            push_char(out, 'r');
        } else if c == '\t' {
            push_char(out, '\\');
            push_char(out, 't');
        } else {
            push_char(out, c);
        }
        assert(cs@.take(i + 1).drop_last() =~= cs@.take(i as int));
        i = i + 1;
        assert(out@ =~= start + escaped(cs@.take(i as int)));
    }
    assert(cs@.take(i as int) =~= s@);
}

/// The label of a node's kind.
pub open spec fn type_label(t: NodeType) -> Seq<char> {
    match t {
        NodeType::Dir => "dir"@,
        NodeType::File => "file"@,
        NodeType::Symlink => "symlink"@,
    }
}

pub(crate) fn type_label_str(t: NodeType) -> (r: &'static str)
    ensures
        r@ == type_label(t),
{
    match t {
        NodeType::Dir => "dir",
        NodeType::File => "file",
        NodeType::Symlink => "symlink",
    }
}

/// The fields of a node's object up to the opening of its children
/// array, at `indent` levels of two spaces.
pub open spec fn node_head(n: TreeV, indent: nat) -> Seq<char> {
    let p1 = spaces(2 * (indent + 1));
    "{\n"@ + p1 + "\"name\": \""@ + escaped(n.entry.name) + "\",\n"@ + p1 + "\"path\": \""@ + escaped(
        n.entry.path,
    ) + "\",\n"@ + p1 + "\"size\": "@ + dec(n.entry.size as nat) + ",\n"@ + p1 + "\"total_size\": "@
        + dec(n.total) + ",\n"@ + p1 + "\"modified\": "@ + dec(n.entry.modified as nat) + ",\n"@ + p1
        + "\"type\": \""@ + type_label(n.entry.node_type) + "\",\n"@ + p1 + "\"children\": ["@
}

/// A node's object at `indent` levels, children embedded.
pub open spec fn node_json(n: TreeV, indent: nat) -> Seq<char>
    decreases n, 1nat, 0nat,
{
    let p1 = spaces(2 * (indent + 1));
    node_head(n, indent) + (if n.children.len() == 0 {
        "]"@
    } else {
        "\n"@ + items_json(n, indent, n.children.len() as nat) + p1 + "]"@
    }) + "\n"@ + spaces(2 * indent) + "}"@
}

/// The first `k` children of `n` as array items, one per line, separated
/// by commas.
pub open spec fn items_json(n: TreeV, indent: nat, k: nat) -> Seq<char>
    decreases n, 0nat, k,
{
    if k == 0 || k > n.children.len() {
        Seq::empty()
    } else {
        items_json(n, indent, (k - 1) as nat) + spaces(2 * (indent + 1)) + "  "@ + node_json(
            n.children[k - 1],
            indent + 2,
        ) + (if k < n.children.len() {
            ","@
        } else {
            ""@
        }) + "\n"@
    }
}

/// The whole document: the totals, then the root.
pub open spec fn json_text(r: ScanResult) -> Seq<char> {
    "{\n"@ + "  \"total_size\": "@ + dec(r.total_size as nat) + ",\n"@ + "  \"entry_count\": "@ + dec(
        r.entry_count as nat,
    ) + ",\n"@ + "  \"root\": "@ + node_json(r.root.tv(), 2) + "\n}\n"@
}

fn push_head(out: &mut String, node: &TreeNode, indent: usize)
    requires
        2 * (indent + 1) <= usize::MAX,
    ensures
        final(out)@ == old(out)@ + node_head(node.tv(), indent as nat),
{
    let p1 = 2 * (indent + 1);
    let mut h = String::new();
    h.append("{\n");
    push_spaces(&mut h, p1);
    h.append("\"name\": \"");
    push_escaped(&mut h, node.entry.name.as_str());
    h.append("\",\n");
    push_spaces(&mut h, p1);
    h.append("\"path\": \"");
    push_escaped(&mut h, node.entry.path.as_str());
    h.append("\",\n");
    push_spaces(&mut h, p1);
    h.append("\"size\": ");
    push_dec(&mut h, node.entry.size as u128);
    h.append(",\n");
    push_spaces(&mut h, p1);
    h.append("\"total_size\": ");
    push_dec(&mut h, node.total_size as u128);
    h.append(",\n");
    push_spaces(&mut h, p1);
    h.append("\"modified\": ");
    push_dec(&mut h, node.entry.modified as u128);
    h.append(",\n");
    push_spaces(&mut h, p1);
    h.append("\"type\": \"");
    h.append(type_label_str(node.entry.node_type));
    h.append("\",\n");
    push_spaces(&mut h, p1);
    h.append("\"children\": [");
    assert(h@ =~= node_head(node.tv(), indent as nat));
    out.append(h.as_str());
}

fn write_node(node: &TreeNode, indent: usize, out: &mut String)
    requires
        2 * (indent + 2 * tree_height(node.tv()) + 1) <= usize::MAX,
    ensures
        final(out)@ == old(out)@ + node_json(node.tv(), indent as nat),
    decreases node, 1nat,
{
    let ghost start = out@;
    let ghost t = node.tv();
    push_head(out, node, indent);
    let p1 = 2 * (indent + 1);
    if node.children.len() == 0 {
        out.append("]");
    } else {
        out.append("\n");
        write_items(node, indent, out);
        push_spaces(out, p1);
        out.append("]");
    }
    out.append("\n");
    push_spaces(out, 2 * indent);
    out.append("}");
    assert(out@ =~= start + node_json(t, indent as nat));
}

fn write_items(node: &TreeNode, indent: usize, out: &mut String)
    requires
        2 * (indent + 2 * tree_height(node.tv()) + 1) <= usize::MAX,
    ensures
        final(out)@ == old(out)@ + items_json(node.tv(), indent as nat, node.children@.len() as nat),
    decreases node, 0nat,
{
    let ghost t = node.tv();
    let ghost start = out@;
    let n = node.children.len();
    let mut k: usize = 0;
    while k < n
        invariant
            k <= n,
            n == node.children@.len(),
            t == node.tv(),
            t.children.len() == n,
            2 * (indent + 2 * tree_height(t) + 1) <= usize::MAX,
            out@ == start + items_json(t, indent as nat, k as nat),
        decreases n - k,
    {
        assert(t.children[k as int] == node.children@[k as int].tv());
        proof {
            lemma_child_height(t, k as int);
        }
        let ghost before = out@;
        push_spaces(out, 2 * (indent + 1));
        out.append("  ");
        write_node(&node.children[k], indent + 2, out);
        if k + 1 < n {
            out.append(",");
        } else {
            out.append("");
        }
        out.append("\n");
        k = k + 1;
        assert(out@ =~= start + items_json(t, indent as nat, k as nat));
    }
}

/// Renders the result as indented JSON.
pub fn format(result: &ScanResult) -> (r: String)
    requires
        4 * tree_height(result.root.tv()) + 6 <= usize::MAX,
    ensures
        r@ == json_text(*result),
{
    let mut out = String::new();
    out.append("{\n");
    out.append("  \"total_size\": ");
    push_dec(&mut out, result.total_size as u128);
    out.append(",\n");
    out.append("  \"entry_count\": ");
    push_dec(&mut out, result.entry_count as u128);
    out.append(",\n");
    out.append("  \"root\": ");
    write_node(&result.root, 2, &mut out);
    out.append("\n}\n");
    assert(out@ =~= json_text(*result));
    out
}

} // verus!
