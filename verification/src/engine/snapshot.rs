//! A self-contained interactive HTML snapshot of a scan: the tree as
//! embedded JSON (at most a given number of nodes, the largest children
//! first), a treemap, a table and a breadcrumb bar, in one document.
use vstd::prelude::*;
use crate::domain::{ref_views, FileNode, FileNodeV, FileType, ScanResult};
use crate::engine::format::type_label;
use crate::sums::{lemma_sum_prefix_le, lemma_sum_take_all, lemma_sum_take_step, sum_nat};
use crate::text::{chars_of, dec, push_char, push_dec};

verus! {

/// Default cap on the number of nodes in a snapshot.
pub const DEFAULT_MAX_NODES: usize = 50000;

/// The note shown when the tree was cut to fit the cap.
pub const TRUNCATED_NOTE: &'static str = r#"<div class="trunc-note">Showing top entries by size (some deep branches pruned).</div>"#;

/// The document up to the title.
pub const HTML_HEAD: &'static str = r##"<!DOCTYPE html>
<html lang="en">
<head>
<meta charset="UTF-8">
<meta name="viewport" content="width=device-width, initial-scale=1.0">
<title>"##;

/// The document between the title and the truncation note.
pub const HTML_AFTER_TITLE: &'static str = r##" — DiskScope Snapshot</title>
<style>
* { margin:0; padding:0; box-sizing:border-box; }
body { background:#0f172a; color:#e2e8f0; font-family:-apple-system,BlinkMacSystemFont,"Segoe UI",Roboto,sans-serif; display:flex; height:100vh; overflow:hidden; }
#sidebar { width:280px; min-width:200px; background:#1e293b; display:flex; flex-direction:column; border-right:1px solid #334155; }
#breadcrumb { padding:8px 12px; display:flex; flex-wrap:wrap; gap:4px; align-items:center; border-bottom:1px solid #334155; min-height:36px; }
.crumb { cursor:pointer; color:#2563eb; font-size:13px; }
.crumb:hover { text-decoration:underline; }
.crumb-sep { color:#64748b; font-size:13px; }
.crumb-current { color:#e2e8f0; font-size:13px; }
#table-wrap { flex:1; overflow-y:auto; }
table { width:100%; border-collapse:collapse; font-size:12px; }
th { position:sticky; top:0; background:#1e293b; text-align:left; padding:6px 8px; color:#94a3b8; border-bottom:1px solid #334155; }
td { padding:5px 8px; border-bottom:1px solid rgba(51,65,85,.4); white-space:nowrap; overflow:hidden; text-overflow:ellipsis; max-width:240px; cursor:pointer; }
tr:hover td { background:rgba(37,99,235,.15); }
.size-col { text-align:right; font-variant-numeric:tabular-nums; }
.type-col { color:#94a3b8; }
#main { flex:1; display:flex; flex-direction:column; position:relative; }
#canvas-wrap { flex:1; position:relative; }
canvas { display:block; width:100%; height:100%; }
#tooltip { display:none; position:absolute; pointer-events:none; background:#1e293b; border:1px solid #334155; border-radius:4px; padding:6px 10px; font-size:12px; color:#e2e8f0; max-width:400px; word-break:break-all; z-index:10; box-shadow:0 4px 12px rgba(0,0,0,.4); }
.trunc-note { padding:4px 12px; font-size:11px; color:#64748b; background:#0f172a; border-top:1px solid #334155; }
.footer { padding:4px 12px; font-size:11px; color:#475569; background:#0f172a; border-top:1px solid #334155; }
</style>
</head>
<body>
<div id="sidebar">
  <div id="breadcrumb"></div>
  <div id="table-wrap"><table><thead><tr><th>Name</th><th class="size-col">Size</th><th>Type</th></tr></thead><tbody id="tbody"></tbody></table></div>
  "##;

/// The document between the truncation note and the embedded tree.
pub const HTML_AFTER_NOTE: &'static str = r##"
</div>
<div id="main">
  <div id="canvas-wrap"><canvas id="canvas"></canvas></div>
  <div id="tooltip"></div>
</div>
<script>
const TREE = "##;

/// The document after the embedded tree.
pub const HTML_TAIL: &'static str = r##";

const TYPE_COLORS = {
  audio:"#2563eb", video:"#f59e0b", image:"#22c55e", document:"#ef4444",
  code:"#e2e8f0", archive:"#94a3b8", dir:"#1e293b", other:"#475569"
};

function formatSize(b) {
  if (b === 0) return '0 B';
  const u = ['B','KiB','MiB','GiB','TiB','PiB'];
  const i = Math.min(Math.floor(Math.log2(b) / 10), u.length - 1);
  return (b / (1 << (10 * i))).toFixed(i === 0 ? 0 : 1) + ' ' + u[i];
}

// Squarify treemap layout (Bruls, Huizing, van Wijk 2000).
function squarify(entries, rect, depth, out) {
  if (!entries.length || rect.width <= 0 || rect.height <= 0) return;
  const sorted = [...entries].sort((a, b) => b.size - a.size);
  const total = sorted.reduce((s, n) => s + n.size, 0);
  if (total <= 0) return;
  const area = rect.width * rect.height;
  const scale = area / total;
  let cur = { ...rect };
  let horiz = cur.width >= cur.height;
  let row = [], rowSum = 0;

  function worst(r, sum) {
    if (!r.length || sum <= 0) return Infinity;
    const length = horiz ? cur.width : cur.height;
    const thickness = (sum * scale) / length;
    if (thickness <= 0) return Infinity;
    const cellLens = r.map(n => (n.size * scale) / thickness);
    const minLen = Math.min(...cellLens);
    const maxLen = Math.max(...cellLens);
    return Math.max(length / minLen, thickness / minLen, maxLen / minLen, thickness / maxLen);
  }

  function emitRow(r, sum) {
    if (!r.length || sum <= 0) return;
    const rowArea = sum * scale;
    const length = horiz ? cur.width : cur.height;
    const thickness = rowArea / length;
    if (thickness <= 0) return;
    let cursor = 0;
    for (const node of r) {
      const cellLen = (node.size * scale) / thickness;
      const cellRect = horiz
        ? { x: cur.x + cursor, y: cur.y, width: cellLen, height: thickness }
        : { x: cur.x, y: cur.y + cursor, width: thickness, height: cellLen };
      out.push({ node, rect: cellRect, depth });
      cursor += cellLen;
    }
    cur = horiz
      ? { x: cur.x, y: cur.y + thickness, width: cur.width, height: cur.height - thickness }
      : { x: cur.x + thickness, y: cur.y, width: cur.width - thickness, height: cur.height };
    horiz = cur.width >= cur.height;
  }

  for (const node of sorted) {
    const candidateSum = rowSum + node.size;
    if (!row.length || worst([...row, node], candidateSum) <= worst(row, rowSum)) {
      row.push(node);
      rowSum = candidateSum;
    } else {
      emitRow(row, rowSum);
      row = [node];
      rowSum = node.size;
    }
  }
  if (row.length) emitRow(row, rowSum);
}

// State
let currentNode = TREE;
let path = [TREE];
let layout = [];

const canvas = document.getElementById('canvas');
const ctx = canvas.getContext('2d');
const tooltip = document.getElementById('tooltip');
const breadcrumb = document.getElementById('breadcrumb');
const tbody = document.getElementById('tbody');

function resizeCanvas() {
  const wrap = document.getElementById('canvas-wrap');
  const dpr = window.devicePixelRatio || 1;
  canvas.width = wrap.clientWidth * dpr;
  canvas.height = wrap.clientHeight * dpr;
  canvas.style.width = wrap.clientWidth + 'px';
  canvas.style.height = wrap.clientHeight + 'px';
  ctx.setTransform(dpr, 0, 0, dpr, 0, 0);
}

function renderBreadcrumb() {
  let html = '';
  path.forEach((n, i) => {
    if (i > 0) html += '<span class="crumb-sep">/</span>';
    if (i < path.length - 1) {
      const label = n.path || '(root)';
      html += '<span class="crumb" data-idx="' + i + '">' + label.replace(/</g, '&lt;') + '</span>';
    } else {
      const label = n.path || '(root)';
      html += '<span class="crumb-current">' + label.replace(/</g, '&lt;') + '</span>';
    }
  });
  breadcrumb.innerHTML = html;
  breadcrumb.querySelectorAll('.crumb').forEach(el => {
    el.addEventListener('click', () => {
      const idx = +el.dataset.idx;
      path = path.slice(0, idx + 1);
      currentNode = path[path.length - 1];
      renderAll();
    });
  });
}

function renderTable() {
  const children = currentNode.children || [];
  const sorted = [...children].sort((a, b) => b.size - a.size);
  let html = '';
  for (const n of sorted) {
    const name = (n.path || '').split('/').pop() || '(root)';
    const nameEsc = name.replace(/</g, '&lt;');
    html += '<tr><td>' + nameEsc + '</td><td class="size-col">' + formatSize(n.size) +
            '</td><td class="type-col">' + n.fileType + '</td></tr>';
  }
  tbody.innerHTML = html;
  tbody.querySelectorAll('tr').forEach((tr, i) => {
    tr.addEventListener('click', () => {
      const n = sorted[i];
      if (n.children && n.children.length) {
        path.push(n);
        currentNode = n;
        renderAll();
      }
    });
  });
}

function renderTreemap() {
  resizeCanvas();
  const w = canvas.width / (window.devicePixelRatio || 1);
  const h = canvas.height / (window.devicePixelRatio || 1);
  ctx.clearRect(0, 0, w, h);
  layout = [];
  squarify(currentNode.children || [], { x: 0, y: 0, width: w, height: h }, 0, layout);

  for (const entry of layout) {
    const { node, rect } = entry;
    const color = TYPE_COLORS[node.fileType] || TYPE_COLORS.other;
    ctx.fillStyle = color;
    ctx.fillRect(rect.x + 1, rect.y + 1, rect.width - 2, rect.height - 2);
    // Label (only if big enough).
    if (rect.width > 40 && rect.height > 16) {
      ctx.fillStyle = node.fileType === 'dir' ? '#94a3b8' : '#0f172a';
      ctx.font = (rect.height > 24 ? 12 : 10) + 'px sans-serif';
      const label = (node.path || '').split('/').pop() || '(root)';
      ctx.save();
      ctx.beginPath();
      ctx.rect(rect.x + 2, rect.y + 1, rect.width - 4, rect.height - 2);
      ctx.clip();
      ctx.fillText(label, rect.x + 4, rect.y + (rect.height > 24 ? 16 : 13), rect.width - 8);
      ctx.restore();
    }
  }
}

function renderAll() {
  renderBreadcrumb();
  renderTable();
  renderTreemap();
}

// Tooltip on hover.
canvas.addEventListener('mousemove', e => {
  const rect = canvas.getBoundingClientRect();
  const mx = e.clientX - rect.left;
  const my = e.clientY - rect.top;
  let hit = null;
  for (const entry of layout) {
    const r = entry.rect;
    if (mx >= r.x && mx < r.x + r.width && my >= r.y && my < r.y + r.height) {
      hit = entry;
    }
  }
  if (hit) {
    tooltip.style.display = 'block';
    tooltip.textContent = hit.node.path || '(root)' + ' — ' + formatSize(hit.node.size);
    tooltip.style.left = (e.clientX + 12) + 'px';
    tooltip.style.top = (e.clientY + 12) + 'px';
    canvas.style.cursor = hit.node.children && hit.node.children.length ? 'pointer' : 'default';
  } else {
    tooltip.style.display = 'none';
    canvas.style.cursor = 'default';
  }
});

canvas.addEventListener('mouseleave', () => { tooltip.style.display = 'none'; });

// Click to drill into directory.
canvas.addEventListener('click', e => {
  const rect = canvas.getBoundingClientRect();
  const mx = e.clientX - rect.left;
  const my = e.clientY - rect.top;
  for (const entry of layout) {
    const r = entry.rect;
    if (mx >= r.x && mx < r.x + r.width && my >= r.y && my < r.y + r.height) {
      if (entry.node.children && entry.node.children.length) {
        path.push(entry.node);
        currentNode = entry.node;
        renderAll();
        return;
      }
    }
  }
});

// Back via browser back button or keyboard.
window.addEventListener('keydown', e => {
  if (e.key === 'Escape' && path.length > 1) {
    path.pop();
    currentNode = path[path.length - 1];
    renderAll();
  }
});

window.addEventListener('resize', renderTreemap);
renderAll();
</script>
</body>
</html>"##;

/// The short label of a type in the embedded JSON.
pub fn file_type_label(ft: FileType) -> (r: &'static str)
    ensures
        r@ == type_label(ft),
{
    crate::engine::format::type_label_str(ft)
}

// ── text escaping ────────────────────────────────────────────────────────

/// `c` inside a JSON string literal: quote, backslash, newline, return
/// and tab by their short escapes, other control characters as `\u00XX`.
pub open spec fn json_char(c: char) -> Seq<char> {
    if c == '"' {
        "\\\""@
    } else if c == '\\' {
        "\\\\"@
    } else if c == '\n' {
        "\\n"@
    } else if c == '\r' {
        "\\r"@
    } else if c == '\t' {
        "\\t"@
    } else if (c as u32) < 32 {
        "\\u00"@ + seq![
            crate::engine::sync::hex_digit(((c as u32) / 16) as nat),
            crate::engine::sync::hex_digit(((c as u32) % 16) as nat),
        ]
    } else {
        seq![c]
    }
}

/// A text escaped for a JSON string literal.
pub open spec fn json_escaped(t: Seq<char>) -> Seq<char>
    decreases t.len(),
{
    if t.len() == 0 {
        Seq::empty()
    } else {
        json_escaped(t.drop_last()) + json_char(t.last())
    }
}

/// Escapes a text for a JSON string literal.
pub fn escape_json(s: &str) -> (r: String)
    ensures
        r@ == json_escaped(s@),
{
    let cs = chars_of(s);
    let mut out = String::new();
    let mut i: usize = 0;
    while i < cs.len()
        invariant
            i <= cs@.len(),
            cs@ == s@,
            out@ == json_escaped(cs@.take(i as int)),
        decreases cs@.len() - i,
    {
        let c = cs[i];
        let ghost before = out@;
        if c == '"' {
            out.append("\\\"");
        } else if c == '\\' {
            out.append("\\\\");
        } else if c == '\n' {
            out.append("\\n");
        } else if c == '\r' {
            out.append("\\r");
        } else if c == '\t' {
            out.append("\\t");
        } else if (c as u32) < 32 {
            let v = c as u32;
            out.append("\\u00");
            push_char(&mut out, hex_char_u32(v / 16));
            push_char(&mut out, hex_char_u32(v % 16));
        } else {
            push_char(&mut out, c);
        }
        assert(out@ =~= before + json_char(c));
        assert(cs@.take(i + 1).drop_last() =~= cs@.take(i as int));
        i = i + 1;
    }
    assert(cs@.take(i as int) =~= cs@);
    out
}

fn hex_char_u32(d: u32) -> (c: char)
    requires
        d < 16,
    ensures
        c == crate::engine::sync::hex_digit(d as nat),
{
    if d < 10 {
        crate::text::digit_char_exec(d as u64)
    } else if d == 10 {
        'a'
    } else if d == 11 {
        'b'
    } else if d == 12 {
        'c'
    } else if d == 13 {
        'd'
    } else if d == 14 {
        'e'
    } else {
        'f'
    }
}

/// `c` in HTML text: `&`, `<` and `>` as entities.
pub open spec fn html_char(c: char) -> Seq<char> {
    if c == '&' {
        "&amp;"@
    } else if c == '<' {
        "&lt;"@
    } else if c == '>' {
        "&gt;"@
    } else {
        seq![c]
    }
}

/// A text escaped for HTML.
pub open spec fn html_escaped(t: Seq<char>) -> Seq<char>
    decreases t.len(),
{
    if t.len() == 0 {
        Seq::empty()
    } else {
        html_escaped(t.drop_last()) + html_char(t.last())
    }
}

/// Escapes `&`, `<` and `>` for HTML text.
pub fn escape_html(s: &str) -> (r: String)
    ensures
        r@ == html_escaped(s@),
{
    let cs = chars_of(s);
    let mut out = String::new();
    let mut i: usize = 0;
    while i < cs.len()
        invariant
            i <= cs@.len(),
            cs@ == s@,
            out@ == html_escaped(cs@.take(i as int)),
        decreases cs@.len() - i,
    {
        let c = cs[i];
        let ghost before = out@;
        if c == '&' {
            out.append("&amp;");
        } else if c == '<' {
            out.append("&lt;");
        } else if c == '>' {
            out.append("&gt;");
        } else {
            push_char(&mut out, c);
        }
        assert(out@ =~= before + html_char(c));
        assert(cs@.take(i + 1).drop_last() =~= cs@.take(i as int));
        i = i + 1;
    }
    assert(cs@.take(i as int) =~= cs@);
    out
}

// ── largest first ────────────────────────────────────────────────────────

/// Where `x` goes in `s` (sorted largest first) so that it follows every
/// entry at least as large: scanning back from position `k`.
pub open spec fn ins_pos(s: Seq<FileNodeV>, x: FileNodeV, k: nat) -> nat
    decreases k,
{
    if k > 0 && k <= s.len() && s[k - 1].size < x.size {
        ins_pos(s, x, (k - 1) as nat)
    } else {
        k
    }
}

/// `s` stably sorted by size, largest first (entries of equal size keep
/// their order).
pub open spec fn by_size_desc(s: Seq<FileNodeV>) -> Seq<FileNodeV>
    decreases s.len(),
{
    if s.len() == 0 {
        Seq::empty()
    } else {
        let r = by_size_desc(s.drop_last());
        r.insert(ins_pos(r, s.last(), r.len()) as int, s.last())
    }
}

proof fn lemma_ins_pos_le(s: Seq<FileNodeV>, x: FileNodeV, k: nat)
    requires
        k <= s.len(),
    ensures
        ins_pos(s, x, k) <= k,
    decreases k,
{
    if k > 0 && s[k - 1].size < x.size {
        lemma_ins_pos_le(s, x, (k - 1) as nat);
    }
}

/// The sorted sequence holds the same entries.
proof fn lemma_by_size_desc_members(s: Seq<FileNodeV>)
    ensures
        by_size_desc(s).len() == s.len(),
        forall|k: int| 0 <= k < s.len() ==> exists|j: int| 0 <= j < s.len() && #[trigger] by_size_desc(s)[k] == s[j],
    decreases s.len(),
{
    if s.len() > 0 {
        let d = s.drop_last();
        lemma_by_size_desc_members(d);
        let r = by_size_desc(d);
        let p = ins_pos(r, s.last(), r.len());
        lemma_ins_pos_le(r, s.last(), r.len());
        assert forall|k: int| 0 <= k < s.len() implies exists|j: int| 0 <= j < s.len() && #[trigger] by_size_desc(s)[k] == s[j] by {
            if k < p {
                let j = choose|j: int| 0 <= j < d.len() && r[k] == d[j];
                assert(by_size_desc(s)[k] == s[j]);
            } else if k == p {
                assert(by_size_desc(s)[k] == s[s.len() - 1]);
            } else {
                let j = choose|j: int| 0 <= j < d.len() && r[k - 1] == d[j];
                assert(by_size_desc(s)[k] == s[j]);
            }
        }
    }
}

fn sorted_children(node: &FileNode) -> (r: Vec<&FileNode>)
    ensures
        ref_views(r@) == by_size_desc(node@.children),
{
    let mut out: Vec<&FileNode> = Vec::new();
    let mut i: usize = 0;
    while i < node.children.len()
        invariant
            i <= node.children@.len(),
            ref_views(out@) == by_size_desc(node@.children.take(i as int)),
        decreases node.children@.len() - i,
    {
        let x = &node.children[i];
        assert(node@.children[i as int] == x@);
        let ghost rv = ref_views(out@);
        assert(node@.children.take(i + 1).drop_last() =~= node@.children.take(i as int));
        let mut pos = out.len();
        while pos > 0 && out[pos - 1].size < x.size
            invariant
                pos <= out@.len(),
                rv == ref_views(out@),
                ins_pos(rv, x@, out@.len() as nat) == ins_pos(rv, x@, pos as nat),
            decreases pos,
        {
            assert(rv[pos - 1] == out@[pos - 1]@);
            pos = pos - 1;
        }
        proof {
            if pos > 0 {
                assert(rv[pos - 1] == out@[pos - 1]@);
            }
        }
        out.insert(pos, x);
        assert(ref_views(out@) =~= rv.insert(pos as int, x@));
        i = i + 1;
    }
    assert(node@.children.take(i as int) =~= node@.children);
    out
}

// ── embedded JSON ────────────────────────────────────────────────────────

/// The opening of a node's object, up to its children array.
pub open spec fn snap_head(n: FileNodeV) -> Seq<char> {
    "{\"path\":\""@ + json_escaped(n.path) + "\",\"size\":"@ + dec(n.size as nat) + ",\"fileType\":\""@
        + type_label(n.file_type) + "\",\"children\":["@
}

/// The JSON of the tree at `n` with at most `budget` nodes (at least the
/// node itself), and the number of nodes written. Children go largest
/// first while the budget lasts.
pub open spec fn snap(n: FileNodeV, budget: nat) -> (Seq<char>, nat)
    decreases n.height(), 1nat, 0nat,
{
    if budget > 1 && n.children.len() > 0 {
        let cs = by_size_desc(n.children);
        let r = snap_list(cs, budget, 1, 0, n.height());
        (snap_head(n) + r.0 + "]}"@, r.1)
    } else {
        (snap_head(n) + "]}"@, 1)
    }
}

/// The JSON of `cs[k..]` while fewer than `budget` nodes are written,
/// `count` being written already; entries after the first are preceded
/// by a comma. Entries must be lower than `h`.
pub open spec fn snap_list(cs: Seq<FileNodeV>, budget: nat, count: nat, k: nat, h: nat) -> (Seq<char>, nat)
    decreases h, 0nat, cs.len() - k,
{
    if k >= cs.len() || count >= budget || cs[k as int].height() >= h {
        (Seq::empty(), count)
    } else {
        let c = snap(cs[k as int], (budget - count) as nat);
        let sep = if k == 0 {
            Seq::empty()
        } else {
            ","@
        };
        let rest = snap_list(cs, budget, count + c.1, k + 1, h);
        (sep + c.0 + rest.0, rest.1)
    }
}

proof fn lemma_snap_count(n: FileNodeV, budget: nat)
    requires
        budget >= 1,
    ensures
        1 <= snap(n, budget).1 <= budget,
    decreases n.height(), 1nat, 0nat,
{
    if budget > 1 && n.children.len() > 0 {
        lemma_snap_list_count(by_size_desc(n.children), budget, 1, 0, n.height());
    }
}

proof fn lemma_snap_list_count(cs: Seq<FileNodeV>, budget: nat, count: nat, k: nat, h: nat)
    requires
        count <= budget,
    ensures
        count <= snap_list(cs, budget, count, k, h).1 <= budget,
    decreases h, 0nat, cs.len() - k,
{
    if !(k >= cs.len() || count >= budget || cs[k as int].height() >= h) {
        lemma_snap_count(cs[k as int], (budget - count) as nat);
        let c = snap(cs[k as int], (budget - count) as nat);
        lemma_snap_list_count(cs, budget, count + c.1, k + 1, h);
    }
}

fn push_snap_head(buf: &mut String, node: &FileNode)
    ensures
        final(buf)@ == old(buf)@ + snap_head(node@),
{
    let mut s = String::from_str("{\"path\":\"");
    let e = escape_json(node.path.as_str());
    s.append(e.as_str());
    s.append("\",\"size\":");
    push_dec(&mut s, node.size as u128);
    s.append(",\"fileType\":\"");
    s.append(file_type_label(node.file_type));
    s.append("\",\"children\":[");
    assert(s@ =~= snap_head(node@));
    buf.append(s.as_str());
}

/// Writes the JSON of the tree at `node` with at most `budget` nodes;
/// the number of nodes written.
fn write_node_json(node: &FileNode, budget: usize, buf: &mut String) -> (r: usize)
    requires
        budget >= 1,
    ensures
        final(buf)@ == old(buf)@ + snap(node@, budget as nat).0,
        r == snap(node@, budget as nat).1,
    decreases node@.height(),
{
    let ghost start = buf@;
    push_snap_head(buf, node);
    let mut count: usize = 1;
    if budget > 1 && !node.children.is_empty() {
        let sorted = sorted_children(node);
        let ghost cs = by_size_desc(node@.children);
        let ghost h = node@.height();
        proof {
            lemma_by_size_desc_members(node@.children);
        }
        let ghost head_end = buf@;
        let mut k: usize = 0;
        while k < sorted.len()
            invariant_except_break
                snap_list(cs, budget as nat, 1, 0, h) == (
                    buf@.subrange(head_end.len() as int, buf@.len() as int) + snap_list(cs, budget as nat, count as nat, k as nat, h).0,
                    snap_list(cs, budget as nat, count as nat, k as nat, h).1,
                ),
            invariant
                ref_views(sorted@) == cs,
                cs.len() == node@.children.len(),
                h == node@.height(),
                forall|q: int| 0 <= q < cs.len() ==> exists|j: int| 0 <= j < node@.children.len() && #[trigger] cs[q] == node@.children[j],
                k <= sorted@.len(),
                1 <= count <= budget,
                head_end.len() <= buf@.len(),
                buf@.subrange(0, head_end.len() as int) == head_end,
                head_end == start + snap_head(node@),
            ensures
                snap_list(cs, budget as nat, 1, 0, h) == (buf@.subrange(head_end.len() as int, buf@.len() as int), count as nat),
                head_end.len() <= buf@.len(),
                buf@.subrange(0, head_end.len() as int) == head_end,
            decreases sorted@.len() - k,
        {
            if count >= budget {
                break;
            }
            let child = sorted[k];
            proof {
                assert(cs[k as int] == child@);
                let j = choose|j: int| 0 <= j < node@.children.len() && cs[k as int] == node@.children[j];
                crate::domain::lemma_child_height(node@, j);
                lemma_snap_count(child@, (budget - count) as nat);
            }
            let ghost before = buf@;
            if k > 0 {
                buf.append(",");
            }
            let c = write_node_json(child, budget - count, buf);
            proof {
                let sep = if k == 0 { Seq::<char>::empty() } else { ","@ };
                assert(buf@ =~= before + sep + snap(child@, (budget - count) as nat).0);
                assert(buf@.subrange(0, head_end.len() as int) =~= head_end);
                assert(buf@.subrange(head_end.len() as int, buf@.len() as int) =~= before.subrange(
                    head_end.len() as int,
                    before.len() as int,
                ) + sep + snap(child@, (budget - count) as nat).0);
            }
            count = count + c;
            k = k + 1;
        }
        let ghost mid = buf@;
        buf.append("]}");
        assert(buf@ =~= start + snap(node@, budget as nat).0) by {
            assert(mid =~= head_end + mid.subrange(head_end.len() as int, mid.len() as int));
        }
    } else {
        buf.append("]}");
        assert(buf@ =~= start + snap(node@, budget as nat).0);
    }
    count
}

/// The embedded JSON of the tree at `root` with at most `max_nodes` nodes
/// (at least one).
pub fn build_json(root: &FileNode, max_nodes: usize) -> (r: String)
    ensures
        r@ == snap(root@, if max_nodes >= 1 { max_nodes as nat } else { 1 }).0,
{
    let budget = if max_nodes >= 1 { max_nodes } else { 1 };
    let mut buf = String::new();
    write_node_json(root, budget, &mut buf);
    assert(buf@ =~= snap(root@, budget as nat).0);
    buf
}

/// Number of nodes of the tree at `node`.
pub fn node_count(node: &FileNode) -> (r: usize)
    requires
        node@.count() <= usize::MAX,
    ensures
        r == node@.count(),
    decreases node,
{
    let ghost cs = node@.child_counts();
    let mut acc: usize = 0;
    let mut i: usize = 0;
    while i < node.children.len()
        invariant
            i <= node.children@.len(),
            cs == node@.child_counts(),
            cs.len() == node.children@.len(),
            1 + sum_nat(cs) <= usize::MAX,
            acc == sum_nat(cs.take(i as int)),
        decreases node.children@.len() - i,
    {
        proof {
            lemma_sum_take_step(cs, i as int);
            lemma_sum_prefix_le(cs, i + 1);
            assert(cs[i as int] == node.children@[i as int]@.count());
        }
        let c = node_count(&node.children[i]);
        acc = acc + c;
        i = i + 1;
    }
    proof {
        lemma_sum_take_all(cs);
    }
    1 + acc
}

// ── the document ─────────────────────────────────────────────────────────

/// The snapshot document of a tree: the template with the escaped title,
/// the truncation note when the tree has more than `max_nodes` nodes, and
/// the embedded JSON.
pub open spec fn snapshot_text(root: FileNodeV, title: Seq<char>, max_nodes: nat) -> Seq<char> {
    HTML_HEAD@ + html_escaped(title) + HTML_AFTER_TITLE@ + (if root.count() > max_nodes {
        TRUNCATED_NOTE@
    } else {
        Seq::empty()
    }) + HTML_AFTER_NOTE@ + snap(root, if max_nodes >= 1 { max_nodes } else { 1 }).0 + HTML_TAIL@
}

/// The snapshot document of a scan result.
pub fn render_html_snapshot(result: &ScanResult, title: &str, max_nodes: usize) -> (r: String)
    requires
        result.root.count() <= usize::MAX,
    ensures
        r@ == snapshot_text(result.root@, title@, max_nodes as nat),
{
    let tree_json = build_json(&result.root, max_nodes);
    let truncated = node_count(&result.root) > max_nodes;
    let safe_title = escape_html(title);
    let mut s = String::from_str(HTML_HEAD);
    s.append(safe_title.as_str());
    s.append(HTML_AFTER_TITLE);
    if truncated {
        s.append(TRUNCATED_NOTE);
    }
    s.append(HTML_AFTER_NOTE);
    s.append(tree_json.as_str());
    s.append(HTML_TAIL);
    assert(s@ =~= snapshot_text(result.root@, title@, max_nodes as nat));
    s
}

} // verus!
