//! Sort orders for the children of a tree.
use vstd::prelude::*;

verus! {

/// Key and direction for sorting children.
#[derive(Debug, Clone, Copy, PartialEq, Eq, Structural)]
pub enum SortKey {
    /// Largest first.
    SizeDesc,
    /// Smallest first.
    SizeAsc,
    /// By name, A to Z.
    NameAsc,
    /// By name, Z to A.
    NameDesc,
}

} // verus!
