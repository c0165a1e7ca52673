//! Detection of junk directories (caches, build output, dependency trees)
//! in a scanned tree. Only the outermost match of a subtree is reported,
//! so nothing inside a reported directory is counted twice.
use vstd::prelude::*;
use crate::domain::{FileNode, FileType};
use crate::paths::{basename, basename_of};
use crate::text::str_eq;

verus! {

/// Kind of junk.
#[derive(Debug, Clone, Copy, PartialEq, Eq, Structural)]
pub enum JunkCategory {
    Cache,
    BuildArtifact,
    Regenerable,
    VirtualEnv,
}

/// A recognisable junk directory: it matches a directory whose base name
/// is exactly `dir_name`.
#[derive(Debug, Clone)]
pub struct JunkRule {
    pub name: &'static str,
    pub dir_name: &'static str,
    pub category: JunkCategory,
    pub description: &'static str,
}

/// A detected junk directory and the rule that matched it.
#[derive(Debug, Clone)]
pub struct JunkItem {
    pub path: String,
    pub size: u64,
    pub rule_name: &'static str,
    pub category: JunkCategory,
}

/// All junk found, and the sum of the sizes.
#[derive(Debug, Clone)]
pub struct JunkReport {
    pub items: Vec<JunkItem>,
    pub total_recoverable: u64,
}

/// What a detected item holds: path, size, rule name and category.
pub type JunkItemV = (Seq<char>, u64, Seq<char>, JunkCategory);

/// The value of an item.
pub open spec fn item_view(it: JunkItem) -> JunkItemV {
    (it.path@, it.size, it.rule_name@, it.category)
}

/// The index of the first rule whose directory name is `b`.
pub open spec fn first_rule_from(rules: Seq<JunkRule>, b: Seq<char>, i: int) -> Option<int>
    decreases rules.len() - i,
{
    if i < 0 || i >= rules.len() {
        None
    } else if rules[i].dir_name@ == b {
        Some(i)
    } else {
        first_rule_from(rules, b, i + 1)
    }
}

/// The index of the first rule whose directory name is `b`.
pub open spec fn first_rule(rules: Seq<JunkRule>, b: Seq<char>) -> Option<int> {
    first_rule_from(rules, b, 0)
}

/// The junk under `node`, outermost matches only, in depth-first order:
/// a directory matching a rule is reported whole; otherwise its
/// sub-directories are searched in order.
pub open spec fn junk_in(node: FileNode, rules: Seq<JunkRule>) -> Seq<JunkItemV>
    decreases node, 1nat, 0nat,
{
    let m = first_rule(rules, basename(node.path@));
    if node.file_type == FileType::Directory && m is Some {
        let r = rules[m->0];
        seq![(node.path@, node.size, r.name@, r.category)]
    } else {
        junk_in_children(node, rules, node.children@.len() as nat)
    }
}

/// The junk under the first `k` children of `node` that are directories.
pub open spec fn junk_in_children(node: FileNode, rules: Seq<JunkRule>, k: nat) -> Seq<JunkItemV>
    decreases node, 0nat, k,
{
    if k == 0 || k > node.children@.len() {
        Seq::empty()
    } else {
        let c = node.children@[k - 1];
        let rest = junk_in_children(node, rules, (k - 1) as nat);
        if c.file_type == FileType::Directory {
            rest + junk_in(c, rules)
        } else {
            rest
        }
    }
}

/// The sum of the sizes of detected items.
pub open spec fn junk_total(items: Seq<JunkItemV>) -> nat
    decreases items.len(),
{
    if items.len() == 0 {
        0
    } else {
        junk_total(items.drop_last()) + items.last().1 as nat
    }
}

proof fn lemma_junk_total_concat(a: Seq<JunkItemV>, b: Seq<JunkItemV>)
    ensures
        junk_total(a + b) == junk_total(a) + junk_total(b),
    decreases b.len(),
{
    if b.len() == 0 {
        assert(a + b =~= a);
    } else {
        assert((a + b).drop_last() =~= a + b.drop_last());
        lemma_junk_total_concat(a, b.drop_last());
    }
}

proof fn lemma_first_rule_from(rules: Seq<JunkRule>, b: Seq<char>, i: int)
    ensures
        first_rule_from(rules, b, i) matches Some(j) ==> 0 <= j < rules.len() && i <= j
            && rules[j].dir_name@ == b,
    decreases rules.len() - i,
{
    if 0 <= i < rules.len() && rules[i].dir_name@ != b {
        lemma_first_rule_from(rules, b, i + 1);
    }
}

fn find_rule(rules: &[JunkRule], b: &str) -> (r: Option<usize>)
    ensures
        match r {
            Some(i) => first_rule(rules@, b@) == Some(i as int) && i < rules@.len(),
            None => first_rule(rules@, b@) is None,
        },
{
    let mut i: usize = 0;
    while i < rules.len()
        invariant
            i <= rules@.len(),
            first_rule(rules@, b@) == first_rule_from(rules@, b@, i as int),
        decreases rules@.len() - i,
    {
        if str_eq(rules[i].dir_name, b) {
            return Some(i);
        }
        i = i + 1;
    }
    None
}

/// Walks the tree and reports the junk matching `rules`; inside a matched
/// directory nothing more is reported.
pub fn detect_junk(root: &FileNode, rules: &[JunkRule]) -> (r: JunkReport)
    requires
        junk_total(junk_in(*root, rules@)) <= u64::MAX,
    ensures
        r.items@.map_values(|it: JunkItem| item_view(it)) == junk_in(*root, rules@),
        r.total_recoverable == junk_total(junk_in(*root, rules@)),
{
    let mut items: Vec<JunkItem> = Vec::new();
    let mut total: u64 = 0;
    detect_junk_recursive(root, rules, &mut items, &mut total);
    assert(items@.map_values(|it: JunkItem| item_view(it)) =~= junk_in(*root, rules@));
    JunkReport { items, total_recoverable: total }
}

fn detect_junk_recursive(
    node: &FileNode,
    rules: &[JunkRule],
    items: &mut Vec<JunkItem>,
    total: &mut u64,
)
    requires
        *old(total) + junk_total(junk_in(*node, rules@)) <= u64::MAX,
    ensures
        final(items)@.map_values(|it: JunkItem| item_view(it)) == old(items)@.map_values(
            |it: JunkItem| item_view(it),
        ) + junk_in(*node, rules@),
        *final(total) == *old(total) + junk_total(junk_in(*node, rules@)),
    decreases node,
{
    let ghost found = junk_in(*node, rules@);
    let base = basename_of(node.path.as_str());
    if node.is_dir() {
        if let Some(i) = find_rule(rules, base.as_str()) {
            let rule = &rules[i];
            assert(found == seq![(node.path@, node.size, rule.name@, rule.category)]);
            let ghost before = items@;
            items.push(
                JunkItem {
                    path: node.path.clone(),
                    size: node.size,
                    rule_name: rule.name,
                    category: rule.category,
                },
            );
            proof {
                assert(junk_total(found) == node.size) by {
                    assert(found.drop_last() =~= Seq::<JunkItemV>::empty());
                    assert(junk_total(found.drop_last()) == 0);
                    assert(found.last().1 == node.size);
                }
                assert(items@.map_values(|it: JunkItem| item_view(it)) =~= before.map_values(
                    |it: JunkItem| item_view(it),
                ) + found);
            }
            *total = *total + node.size;
            return ;
        }
    }
    let ghost start_items = items@.map_values(|it: JunkItem| item_view(it));
    let ghost start_total = *total;
    assert(found == junk_in_children(*node, rules@, node.children@.len() as nat));
    let mut k: usize = 0;
    while k < node.children.len()
        invariant
            k <= node.children@.len(),
            found == junk_in_children(*node, rules@, node.children@.len() as nat),
            start_total + junk_total(found) <= u64::MAX,
            items@.map_values(|it: JunkItem| item_view(it)) == start_items + junk_in_children(
                *node,
                rules@,
                k as nat,
            ),
            *total == start_total + junk_total(junk_in_children(*node, rules@, k as nat)),
        decreases node.children@.len() - k,
    {
        let child = &node.children[k];
        proof {
            lemma_junk_children_prefix(*node, rules@, (k + 1) as nat, node.children@.len() as nat);
            let rest = junk_in_children(*node, rules@, k as nat);
            if child.file_type == FileType::Directory {
                lemma_junk_total_concat(rest, junk_in(*child, rules@));
            }
        }
        if child.is_dir() {
            let ghost mid = items@.map_values(|it: JunkItem| item_view(it));
            detect_junk_recursive(child, rules, items, total);
            proof {
                let rest = junk_in_children(*node, rules@, k as nat);
                assert(items@.map_values(|it: JunkItem| item_view(it)) =~= start_items + (rest
                    + junk_in(*child, rules@)));
            }
        }
        k = k + 1;
    }
}

/// The junk of a prefix of the children never totals more than that of a
/// longer prefix.
proof fn lemma_junk_children_prefix(node: FileNode, rules: Seq<JunkRule>, k: nat, n: nat)
    requires
        k <= n <= node.children@.len(),
    ensures
        junk_total(junk_in_children(node, rules, k)) <= junk_total(junk_in_children(node, rules, n)),
    decreases n - k,
{
    if k < n {
        lemma_junk_children_prefix(node, rules, k, (n - 1) as nat);
        let c = node.children@[n - 1];
        let rest = junk_in_children(node, rules, (n - 1) as nat);
        if c.file_type == FileType::Directory {
            lemma_junk_total_concat(rest, junk_in(c, rules));
        }
    }
}

} // verus!
