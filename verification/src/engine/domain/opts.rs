//! Options of a scan.
use vstd::prelude::*;
use super::filter::Filter;
use super::format::OutputFormat;
use super::sort::SortKey;

verus! {

/// Filters, sort order, depth limit and output format of a scan.
#[derive(Debug, Clone)]
pub struct ScanOpts {
    pub filters: Vec<Filter>,
    pub sort: Option<SortKey>,
    pub depth: Option<u32>,
    pub format: OutputFormat,
}

impl Default for ScanOpts {
    fn default() -> (r: ScanOpts)
        ensures
            r.filters@.len() == 0,
            r.sort is None,
            r.depth is None,
            r.format == OutputFormat::Table,
    {
        ScanOpts { filters: Vec::new(), sort: None, depth: None, format: OutputFormat::Table }
    }
}

impl ScanOpts {
    /// The default options: no filter, no sort, no depth limit, table output.
    pub fn new() -> (r: ScanOpts)
        ensures
            r.filters@.len() == 0,
            r.sort is None,
            r.depth is None,
            r.format == OutputFormat::Table,
    {
        ScanOpts::default()
    }
}

} // verus!
