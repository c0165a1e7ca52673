//! Errors of the scan engine's model and of its adapters.
use vstd::prelude::*;

verus! {

/// Error of the engine's model, covering every adapter failure.
#[derive(Debug, Clone, PartialEq, Eq)]
pub enum DomainError {
    InvalidPath(String),
    ScanFailed(String),
    CacheFailed(String),
    TrashFailed(String),
    FilterFailed(String),
}

fn prefixed(prefix: &str, msg: &String) -> (r: String)
    ensures
        r@ == prefix@ + msg@,
{
    let mut s = String::from_str(prefix);
    s.append(msg.as_str());
    s
}

impl DomainError {
    /// The error's message.
    pub open spec fn message(&self) -> Seq<char> {
        match self {
            DomainError::InvalidPath(m) => "invalid path: "@ + m@,
            DomainError::ScanFailed(m) => "scan failed: "@ + m@,
            DomainError::CacheFailed(m) => "cache failed: "@ + m@,
            DomainError::TrashFailed(m) => "trash failed: "@ + m@,
            DomainError::FilterFailed(m) => "filter failed: "@ + m@,
        }
    }

    /// The error's message.
    pub fn to_string(&self) -> (r: String)
        ensures
            r@ == self.message(),
    {
        match self {
            DomainError::InvalidPath(m) => prefixed("invalid path: ", m),
            DomainError::ScanFailed(m) => prefixed("scan failed: ", m),
            DomainError::CacheFailed(m) => prefixed("cache failed: ", m),
            DomainError::TrashFailed(m) => prefixed("trash failed: ", m),
            DomainError::FilterFailed(m) => prefixed("filter failed: ", m),
        }
    }
}

/// A scan failed on I/O.
#[derive(Debug)]
pub enum ScanError {
    Io(String),
}

impl ScanError {
    /// The error's message.
    pub fn to_string(&self) -> (r: String)
        ensures
            match self {
                ScanError::Io(m) => r@ == "scan I/O error: "@ + m@,
            },
    {
        match self {
            ScanError::Io(m) => prefixed("scan I/O error: ", m),
        }
    }
}

/// A cache access failed on I/O.
#[derive(Debug)]
pub enum CacheError {
    Io(String),
}

impl CacheError {
    /// The error's message.
    pub fn to_string(&self) -> (r: String)
        ensures
            match self {
                CacheError::Io(m) => r@ == "cache I/O error: "@ + m@,
            },
    {
        match self {
            CacheError::Io(m) => prefixed("cache I/O error: ", m),
        }
    }
}

/// A trash operation failed on I/O.
#[derive(Debug)]
pub enum TrashError {
    Io(String),
}

impl TrashError {
    /// The error's message.
    pub fn to_string(&self) -> (r: String)
        ensures
            match self {
                TrashError::Io(m) => r@ == "trash I/O error: "@ + m@,
            },
    {
        match self {
            TrashError::Io(m) => prefixed("trash I/O error: ", m),
        }
    }
}

} // verus!
