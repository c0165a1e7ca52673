//! The built-in junk directory rules, and junk detection with them.
use vstd::prelude::*;
use crate::domain::{FileNode, FileType};
use crate::paths::basename;
use crate::domain::junk::{
    detect_junk, first_rule, first_rule_from, item_view, junk_in, junk_total, JunkCategory, JunkItem, JunkReport, JunkRule,
};

verus! {

/// The built-in rules, in order.
pub open spec fn default_rule_table() -> Seq<JunkRule> {
    seq![
        JunkRule { name: "node_modules", dir_name: "node_modules", category: JunkCategory::Regenerable, description: "npm/pnpm/yarn dependencies (regenerable via install)" },
        JunkRule { name: "target", dir_name: "target", category: JunkCategory::BuildArtifact, description: "Rust build artifacts (regenerable via cargo build)" },
        JunkRule { name: "__pycache__", dir_name: "__pycache__", category: JunkCategory::Cache, description: "Python bytecode cache" },
        JunkRule { name: ".venv", dir_name: ".venv", category: JunkCategory::VirtualEnv, description: "Python virtual environment" },
        JunkRule { name: "dist", dir_name: "dist", category: JunkCategory::BuildArtifact, description: "Build output (regenerable)" },
        JunkRule { name: "build", dir_name: "build", category: JunkCategory::BuildArtifact, description: "Build output (regenerable)" },
        JunkRule { name: ".cache", dir_name: ".cache", category: JunkCategory::Cache, description: "General cache directory" },
        JunkRule { name: ".next", dir_name: ".next", category: JunkCategory::BuildArtifact, description: "Next.js build cache" },
        JunkRule { name: ".nuxt", dir_name: ".nuxt", category: JunkCategory::BuildArtifact, description: "Nuxt.js build cache" },
        JunkRule { name: "Pods", dir_name: "Pods", category: JunkCategory::Regenerable, description: "CocoaPods dependencies (regenerable via pod install)" },
        JunkRule { name: ".gradle", dir_name: ".gradle", category: JunkCategory::Cache, description: "Gradle cache" },
        JunkRule { name: ".m2", dir_name: ".m2", category: JunkCategory::Cache, description: "Maven local repository cache" },
        JunkRule { name: ".pytest_cache", dir_name: ".pytest_cache", category: JunkCategory::Cache, description: "Pytest cache" },
        JunkRule { name: ".mypy_cache", dir_name: ".mypy_cache", category: JunkCategory::Cache, description: "Mypy type-checking cache" },
    ]
}

/// The built-in set of junk directory rules: dependency trees, build
/// output, caches and virtual environments.
pub fn default_rules() -> (r: Vec<JunkRule>)
    ensures
        r@ == default_rule_table(),
{
    let mut v: Vec<JunkRule> = Vec::new();
    v.push(JunkRule { name: "node_modules", dir_name: "node_modules", category: JunkCategory::Regenerable, description: "npm/pnpm/yarn dependencies (regenerable via install)" });
    v.push(JunkRule { name: "target", dir_name: "target", category: JunkCategory::BuildArtifact, description: "Rust build artifacts (regenerable via cargo build)" });
    v.push(JunkRule { name: "__pycache__", dir_name: "__pycache__", category: JunkCategory::Cache, description: "Python bytecode cache" });
    v.push(JunkRule { name: ".venv", dir_name: ".venv", category: JunkCategory::VirtualEnv, description: "Python virtual environment" });
    v.push(JunkRule { name: "dist", dir_name: "dist", category: JunkCategory::BuildArtifact, description: "Build output (regenerable)" });
    v.push(JunkRule { name: "build", dir_name: "build", category: JunkCategory::BuildArtifact, description: "Build output (regenerable)" });
    v.push(JunkRule { name: ".cache", dir_name: ".cache", category: JunkCategory::Cache, description: "General cache directory" });
    v.push(JunkRule { name: ".next", dir_name: ".next", category: JunkCategory::BuildArtifact, description: "Next.js build cache" });
    v.push(JunkRule { name: ".nuxt", dir_name: ".nuxt", category: JunkCategory::BuildArtifact, description: "Nuxt.js build cache" });
    v.push(JunkRule { name: "Pods", dir_name: "Pods", category: JunkCategory::Regenerable, description: "CocoaPods dependencies (regenerable via pod install)" });
    v.push(JunkRule { name: ".gradle", dir_name: ".gradle", category: JunkCategory::Cache, description: "Gradle cache" });
    v.push(JunkRule { name: ".m2", dir_name: ".m2", category: JunkCategory::Cache, description: "Maven local repository cache" });
    v.push(JunkRule { name: ".pytest_cache", dir_name: ".pytest_cache", category: JunkCategory::Cache, description: "Pytest cache" });
    v.push(JunkRule { name: ".mypy_cache", dir_name: ".mypy_cache", category: JunkCategory::Cache, description: "Mypy type-checking cache" });
    assert(v@ =~= default_rule_table());
    v
}

/// The directory names that rules match.
pub open spec fn rule_dirs(rules: Seq<JunkRule>) -> Seq<Seq<char>> {
    rules.map_values(|r: JunkRule| r.dir_name@)
}

/// Finding junk is detecting it with the built-in rules (the contracts of
/// [`find_junk`] and [`detect_junk`] give the same report for these
/// rules), and the built-in rules match dependency trees, build output,
/// bytecode caches and virtual environments: `node_modules`, `target`,
/// `__pycache__`, `.venv`, `dist` and `build`.
pub proof fn law_find_junk_is_default_detection(root: FileNode, rules: Seq<JunkRule>)
    requires
        rules == default_rule_table(),
    ensures
        junk_in(root, rules) == junk_in(root, default_rule_table()),
        junk_total(junk_in(root, rules)) == junk_total(junk_in(root, default_rule_table())),
        rule_dirs(rules).contains("node_modules"@),
        rule_dirs(rules).contains("target"@),
        rule_dirs(rules).contains("__pycache__"@),
        rule_dirs(rules).contains(".venv"@),
        rule_dirs(rules).contains("dist"@),
        rule_dirs(rules).contains("build"@),
{
    let d = rule_dirs(rules);
    assert(d[0] == "node_modules"@);
    assert(d[1] == "target"@);
    assert(d[2] == "__pycache__"@);
    assert(d[3] == ".venv"@);
    assert(d[4] == "dist"@);
    assert(d[5] == "build"@);
}

/// Every built-in rule matches the directories named as the rule: its
/// directory name is its name.
pub proof fn law_default_rules_match_their_names()
    ensures
        forall|i: int|
            0 <= i < default_rule_table().len() ==> (#[trigger] default_rule_table()[i]).dir_name@
                == default_rule_table()[i].name@,
{
    let t = default_rule_table();
    assert forall|i: int| 0 <= i < t.len() implies (#[trigger] t[i]).dir_name@ == t[i].name@ by {
        if i == 0 {} else if i == 1 {} else if i == 2 {} else if i == 3 {} else if i == 4 {} else if i == 5 {}
        else if i == 6 {} else if i == 7 {} else if i == 8 {} else if i == 9 {} else if i == 10 {}
        else if i == 11 {} else if i == 12 {} else {}
    }
}

proof fn lemma_first_rule_found(rules: Seq<JunkRule>, b: Seq<char>, i0: int, i: int)
    requires
        0 <= i0 <= i < rules.len(),
        rules[i].dir_name@ == b,
    ensures
        first_rule_from(rules, b, i0) matches Some(j) && i0 <= j <= i && rules[j].dir_name@ == b,
    decreases i - i0,
{
    if rules[i0].dir_name@ != b {
        lemma_first_rule_found(rules, b, i0 + 1, i);
    }
}

/// A directory named as a built-in rule (`node_modules`, `target`,
/// `.next`, ...) is reported whole as junk: one item, with the
/// directory's path and size and that name as the rule's name.
pub proof fn law_named_directory_is_junk(d: FileNode, i: int)
    requires
        0 <= i < default_rule_table().len(),
        d.file_type == FileType::Directory,
        basename(d.path@) == default_rule_table()[i].name@,
    ensures
        junk_in(d, default_rule_table()).len() == 1,
        junk_in(d, default_rule_table())[0].0 == d.path@,
        junk_in(d, default_rule_table())[0].1 == d.size,
        junk_in(d, default_rule_table())[0].2 == default_rule_table()[i].name@,
{
    let t = default_rule_table();
    law_default_rules_match_their_names();
    assert(t[i].dir_name@ == t[i].name@);
    lemma_first_rule_found(t, basename(d.path@), 0, i);
    let j = first_rule(t, basename(d.path@))->0;
    assert(t[j].dir_name@ == t[j].name@);
}

/// Finds all junk in the tree at `root` with the built-in rules.
pub fn find_junk(root: &FileNode) -> (r: JunkReport)
    requires
        junk_total(junk_in(*root, default_rule_table())) <= u64::MAX,
    ensures
        r.items@.map_values(|it: JunkItem| item_view(it)) == junk_in(*root, default_rule_table()),
        r.total_recoverable == junk_total(junk_in(*root, default_rule_table())),
{
    let rules = default_rules();
    detect_junk(root, rules.as_slice())
}

} // verus!
