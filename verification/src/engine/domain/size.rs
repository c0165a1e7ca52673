//! Byte counts with decimal-unit display (`B`, `KB`, ... `PB`, steps of
//! 1024, always one decimal).
use vstd::prelude::*;
use crate::numfmt::{f64_value, f64_value_exec, one_decimal, push_one_decimal, unit_index, unit_index_exec};

verus! {

/// The unit for `k` divisions by 1024.
pub open spec fn unit_name(k: nat) -> Seq<char> {
    if k == 0 {
        "B"@
    } else if k == 1 {
        "KB"@
    } else if k == 2 {
        "MB"@
    } else if k == 3 {
        "GB"@
    } else if k == 4 {
        "TB"@
    } else {
        "PB"@
    }
}

fn unit_name_str(k: u32) -> (r: &'static str)
    ensures
        r@ == unit_name(k as nat),
{
    if k == 0 {
        "B"
    } else if k == 1 {
        "KB"
    } else if k == 2 {
        "MB"
    } else if k == 3 {
        "GB"
    } else if k == 4 {
        "TB"
    } else {
        "PB"
    }
}

/// A byte count as a 64-bit float divided by 1024 while at least 1024 (up
/// to PB), printed with one decimal and its unit.
pub open spec fn size_text(bytes: nat) -> Seq<char> {
    let r = f64_value(bytes);
    let k = unit_index(r, 0, 5);
    one_decimal(r, k) + " "@ + unit_name(k)
}

/// Renders a byte count, e.g. `2048` as `2.0 KB`.
pub fn size_string(bytes: u64) -> (s: String)
    ensures
        s@ == size_text(bytes as nat),
{
    let r = f64_value_exec(bytes);
    let k = unit_index_exec(r, 5);
    let mut s = String::new();
    push_one_decimal(&mut s, r, k);
    s.append(" ");
    s.append(unit_name_str(k));
    s
}

/// A size in bytes.
#[derive(Debug, Clone, Copy, PartialEq, Eq, PartialOrd, Ord, Hash)]
pub struct Size(pub u64);

impl Size {
    /// A size of `bytes` bytes.
    pub fn new(bytes: u64) -> (r: Size)
        ensures
            r.0 == bytes,
    {
        Size(bytes)
    }

    /// The number of bytes.
    pub fn bytes(&self) -> (r: u64)
        ensures
            r == self.0,
    {
        self.0
    }

    /// The size with its unit, e.g. `5.0 MB`.
    pub fn to_string(&self) -> (s: String)
        ensures
            s@ == size_text(self.0 as nat),
    {
        size_string(self.0)
    }
}

impl From<u64> for Size {
    fn from(bytes: u64) -> (r: Size) {
        Size(bytes)
    }
}

impl vstd::std_specs::convert::FromSpecImpl<u64> for Size {
    open spec fn obeys_from_spec() -> bool {
        true
    }

    open spec fn from_spec(v: u64) -> Size {
        Size(v)
    }
}

} // verus!
