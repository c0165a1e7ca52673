//! Output formats for rendered results.
use vstd::prelude::*;

verus! {

/// Output format; `Table` by default.
#[derive(Debug, Clone, Copy, PartialEq, Eq, Structural)]
pub enum OutputFormat {
    Json,
    Table,
    Jsonl,
    Tree,
}

impl Default for OutputFormat {
    fn default() -> (r: OutputFormat)
        ensures
            r == OutputFormat::Table,
    {
        OutputFormat::Table
    }
}

} // verus!
