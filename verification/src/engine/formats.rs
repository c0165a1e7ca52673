//! The second set of renderers of a [`ScanResult`]: the same table, JSON
//! value tree and tree with branch glyphs as [`crate::engine::format`].
use vstd::prelude::*;
use crate::domain::ScanResult;
use crate::engine::format::{format_named, table_text, tree_lines};
use crate::text::{str_eq, to_lowercase, unicode_lowercase};

verus! {

/// Output format.
#[derive(Debug, Clone, Copy, PartialEq, Eq, Structural)]
pub enum OutputFormat {
    Table,
    Json,
    Jsonl,
    Tree,
}

/// This module's format for the format of [`crate::engine::format`].
pub open spec fn same_format(f: crate::engine::format::OutputFormat) -> OutputFormat {
    match f {
        crate::engine::format::OutputFormat::Table => OutputFormat::Table,
        crate::engine::format::OutputFormat::Json => OutputFormat::Json,
        crate::engine::format::OutputFormat::Jsonl => OutputFormat::Jsonl,
        crate::engine::format::OutputFormat::Tree => OutputFormat::Tree,
    }
}

impl OutputFormat {
    /// The format named by a flag value (`table`, `json`, `jsonl`, `tree`),
    /// ignoring case.
    pub fn parse(s: &str) -> (r: Option<OutputFormat>)
        ensures
            r == match format_named(unicode_lowercase(s@)) {
                Some(f) => Some(same_format(f)),
                None => None,
            },
    {
        let lower = to_lowercase(s);
        let l = lower.as_str();
        if str_eq(l, "table") {
            Some(OutputFormat::Table)
        } else if str_eq(l, "json") {
            Some(OutputFormat::Json)
        } else if str_eq(l, "jsonl") {
            Some(OutputFormat::Jsonl)
        } else if str_eq(l, "tree") {
            Some(OutputFormat::Tree)
        } else {
            None
        }
    }
}

/// The table of the result's tree.
pub fn render_table(result: &ScanResult) -> (r: String)
    ensures
        r@ == table_text(result.root@),
{
    crate::engine::format::render_table(result)
}

/// The tree of the result with branch glyphs: the root's line, then each
/// child below it after `├── ` (`└── ` for the last), indented under its
/// parent.
pub fn render_tree(result: &ScanResult) -> (r: String)
    ensures
        r@ == tree_lines(result.root@, Seq::empty(), true),
{
    crate::engine::format::render_tree(result)
}

} // verus!
