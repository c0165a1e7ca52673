//! The command line's argument values, their defaults, and what they
//! become in the domain.
use vstd::prelude::*;
use crate::domain::{Filter, SortColumn, SortDirection, SortSpec};
use crate::engine::domain::filenode::unix_now_secs;
use crate::engine::format::OutputFormat;

verus! {

/// Arguments of `scan`.
#[derive(Debug)]
pub struct ScanArgs {
    /// Directory to scan.
    pub path: String,
    /// Output format; the table when absent.
    pub format: Option<FormatArg>,
    /// Sort column and direction.
    pub sort: Option<SortArg>,
    /// Minimum entry size in bytes.
    pub min_size: Option<u64>,
    /// Maximum entry size in bytes.
    pub max_size: Option<u64>,
    /// Maximum age in seconds, counted back from now.
    pub max_age: Option<u64>,
    /// Case-insensitive name substring.
    pub name_pattern: Option<String>,
    /// Maximum tree depth, inclusive (root = 0).
    pub max_depth: Option<usize>,
    /// Always walk again instead of reusing the cache.
    pub no_cache: bool,
    /// No summary line after the result.
    pub quiet: bool,
    /// File to write an HTML snapshot to instead of rendering.
    pub export: Option<String>,
}

/// Output format argument.
#[derive(Debug, Clone, Copy, PartialEq, Eq, Structural)]
pub enum FormatArg {
    /// Aligned table columns (default).
    Table,
    /// Single JSON object with embedded children.
    Json,
    /// One JSON object per line.
    Jsonl,
    /// Indented tree-style output.
    Tree,
}

/// The output format an argument names.
pub open spec fn format_of(a: FormatArg) -> OutputFormat {
    match a {
        FormatArg::Table => OutputFormat::Table,
        FormatArg::Json => OutputFormat::Json,
        FormatArg::Jsonl => OutputFormat::Jsonl,
        FormatArg::Tree => OutputFormat::Tree,
    }
}

impl From<FormatArg> for OutputFormat {
    fn from(arg: FormatArg) -> (r: OutputFormat) {
        match arg {
            FormatArg::Table => OutputFormat::Table,
            FormatArg::Json => OutputFormat::Json,
            FormatArg::Jsonl => OutputFormat::Jsonl,
            FormatArg::Tree => OutputFormat::Tree,
        }
    }
}

impl vstd::std_specs::convert::FromSpecImpl<FormatArg> for OutputFormat {
    open spec fn obeys_from_spec() -> bool {
        true
    }

    open spec fn from_spec(a: FormatArg) -> OutputFormat {
        format_of(a)
    }
}

/// Sort argument, a column with a direction.
#[derive(Debug, Clone, Copy, PartialEq, Eq, Structural)]
pub enum SortArg {
    NameAsc,
    NameDesc,
    SizeAsc,
    SizeDesc,
    ModifiedAsc,
    ModifiedDesc,
    TypeAsc,
    TypeDesc,
}

/// The sort an argument names.
pub open spec fn spec_of(a: SortArg) -> SortSpec {
    match a {
        SortArg::NameAsc => SortSpec { column: SortColumn::Name, direction: SortDirection::Ascending },
        SortArg::NameDesc => SortSpec { column: SortColumn::Name, direction: SortDirection::Descending },
        SortArg::SizeAsc => SortSpec { column: SortColumn::Size, direction: SortDirection::Ascending },
        SortArg::SizeDesc => SortSpec { column: SortColumn::Size, direction: SortDirection::Descending },
        SortArg::ModifiedAsc => SortSpec { column: SortColumn::Modified, direction: SortDirection::Ascending },
        SortArg::ModifiedDesc => SortSpec { column: SortColumn::Modified, direction: SortDirection::Descending },
        SortArg::TypeAsc => SortSpec { column: SortColumn::Type, direction: SortDirection::Ascending },
        SortArg::TypeDesc => SortSpec { column: SortColumn::Type, direction: SortDirection::Descending },
    }
}

impl From<SortArg> for SortSpec {
    fn from(arg: SortArg) -> (r: SortSpec) {
        match arg {
            SortArg::NameAsc => SortSpec { column: SortColumn::Name, direction: SortDirection::Ascending },
            SortArg::NameDesc => SortSpec { column: SortColumn::Name, direction: SortDirection::Descending },
            SortArg::SizeAsc => SortSpec { column: SortColumn::Size, direction: SortDirection::Ascending },
            SortArg::SizeDesc => SortSpec { column: SortColumn::Size, direction: SortDirection::Descending },
            SortArg::ModifiedAsc => SortSpec { column: SortColumn::Modified, direction: SortDirection::Ascending },
            SortArg::ModifiedDesc => SortSpec { column: SortColumn::Modified, direction: SortDirection::Descending },
            SortArg::TypeAsc => SortSpec { column: SortColumn::Type, direction: SortDirection::Ascending },
            SortArg::TypeDesc => SortSpec { column: SortColumn::Type, direction: SortDirection::Descending },
        }
    }
}

impl vstd::std_specs::convert::FromSpecImpl<SortArg> for SortSpec {
    open spec fn obeys_from_spec() -> bool {
        true
    }

    open spec fn from_spec(a: SortArg) -> SortSpec {
        spec_of(a)
    }
}

/// Every sort argument names a different sort.
pub proof fn law_sort_args_distinct(a: SortArg, b: SortArg)
    requires
        spec_of(a) == spec_of(b),
    ensures
        a == b,
{
}

/// Whether no filter argument was given.
pub open spec fn no_filter_args(a: ScanArgs) -> bool {
    a.min_size is None && a.max_size is None && a.max_age is None && a.name_pattern is None
        && a.max_depth is None
}

impl ScanArgs {
    /// The output format, the table when `--format` was not passed.
    pub fn format(&self) -> (r: OutputFormat)
        ensures
            r == match self.format {
                Some(a) => format_of(a),
                None => OutputFormat::Table,
            },
    {
        match self.format {
            Some(a) => OutputFormat::from(a),
            None => OutputFormat::Table,
        }
    }

    /// The filter the arguments give with reference time `now`: none when
    /// no filter argument was passed, otherwise their bounds, with no
    /// kind restriction.
    pub fn filter_at(&self, now: u64) -> (r: Option<Filter>)
        ensures
            no_filter_args(*self) <==> r is None,
            r matches Some(f) ==> {
                &&& f.min_size == self.min_size
                &&& f.max_size == self.max_size
                &&& f.file_types is None
                &&& f.name_pattern == self.name_pattern
                &&& f.max_age == self.max_age
                &&& f.now == now
                &&& f.max_depth == self.max_depth
            },
    {
        if self.min_size.is_none() && self.max_size.is_none() && self.max_age.is_none()
            && self.name_pattern.is_none() && self.max_depth.is_none() {
            return None;
        }
        let name_pattern = match &self.name_pattern {
            Some(p) => Some(p.clone()),
            None => None,
        };
        Some(
            Filter {
                min_size: self.min_size,
                max_size: self.max_size,
                file_types: None,
                name_pattern,
                max_age: self.max_age,
                now,
                max_depth: self.max_depth,
            },
        )
    }

    /// The filter the arguments give, the reference time being the
    /// current time so that `--max-age` counts back from now.
    pub fn filter(&self) -> (r: Option<Filter>)
        ensures
            no_filter_args(*self) <==> r is None,
            r matches Some(f) ==> {
                &&& f.min_size == self.min_size
                &&& f.max_size == self.max_size
                &&& f.file_types is None
                &&& f.name_pattern == self.name_pattern
                &&& f.max_age == self.max_age
                &&& f.max_depth == self.max_depth
            },
    {
        let now = unix_now_secs();
        self.filter_at(now)
    }
}

/// Arguments of `summary`.
#[derive(Debug)]
pub struct SummaryArgs {
    /// Directory to summarize.
    pub path: String,
}

/// Arguments of `delete`.
#[derive(Debug)]
pub struct DeleteArgs {
    /// Path to move to the trash.
    pub path: Option<String>,
    /// Restore the most recently trashed item instead.
    pub undo: bool,
}

/// Arguments of `dupes`.
#[derive(Debug)]
pub struct DupesArgs {
    /// Directory to search.
    pub path: String,
    /// Minimum file size in bytes to consider.
    pub min_size: u64,
}

} // verus!
