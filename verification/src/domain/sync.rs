//! Change events exchanged by the sync layer, its errors, and the port
//! through which events are published and replayed.
use vstd::prelude::*;
use crate::domain::{DomainError, FileType};

verus! {

/// `io::Error::other` with the given message. Nothing is stated of the
/// error: it is opaque.
#[verifier::external_body]
pub(crate) fn io_error_other(msg: String) -> std::io::Error {
    std::io::Error::other(msg)
}

/// Errors of the sync layer.
#[derive(Debug)]
pub enum SyncError {
    /// No API key is configured.
    MissingApiKey,
    /// An event could not be serialised.
    Serialize(String),
    /// The transport refused a publish or a read.
    Transport(String),
}

impl SyncError {
    /// The error's message.
    pub open spec fn message(&self) -> Seq<char> {
        match self {
            SyncError::MissingApiKey => "sync requires an Ably API key"@,
            SyncError::Serialize(m) => "sync serialize error: "@ + m@,
            SyncError::Transport(m) => "sync transport error: "@ + m@,
        }
    }

    /// The error's message.
    pub fn to_string(&self) -> (r: String)
        ensures
            r@ == self.message(),
    {
        match self {
            SyncError::MissingApiKey => String::from_str("sync requires an Ably API key"),
            SyncError::Serialize(m) => {
                let mut s = String::from_str("sync serialize error: ");
                s.append(m.as_str());
                s
            },
            SyncError::Transport(m) => {
                let mut s = String::from_str("sync transport error: ");
                s.append(m.as_str());
                s
            },
        }
    }
}

impl From<SyncError> for DomainError {
    /// A missing key becomes `InvalidPath` with the message; the other
    /// errors become an `Io` error carrying the message.
    fn from(err: SyncError) -> (r: DomainError) {
        into_domain_error(err)
    }
}

/// The mapping carries an opaque I/O error for two of the variants, so no
/// value is claimed for `from`; [`into_domain_error`] states what holds.
impl vstd::std_specs::convert::FromSpecImpl<SyncError> for DomainError {
    open spec fn obeys_from_spec() -> bool {
        false
    }

    open spec fn from_spec(v: SyncError) -> DomainError {
        arbitrary()
    }
}

/// The `DomainError` a sync error maps to.
pub fn into_domain_error(err: SyncError) -> (r: DomainError)
    ensures
        err is MissingApiKey ==> (r matches DomainError::InvalidPath(m) && m@ == err.message()),
        !(err is MissingApiKey) ==> r is Io,
{
    let msg = err.to_string();
    match err {
        SyncError::MissingApiKey => DomainError::InvalidPath(msg),
        _ => DomainError::Io(io_error_other(msg)),
    }
}

/// A change to one entry, streamed over the sync channel.
#[derive(Debug, Clone, PartialEq, Eq)]
pub enum SyncEvent {
    /// An entry was created or changed, at local time `mtime`.
    Write { path: String, size: u64, mtime: u64, file_type: FileType },
    /// A deletion tombstone carrying the entry's mtime at delete time.
    Delete { path: String, mtime: u64 },
}

impl SyncEvent {
    /// The path of the event.
    pub open spec fn path_of(&self) -> Seq<char> {
        match self {
            SyncEvent::Write { path, .. } => path@,
            SyncEvent::Delete { path, .. } => path@,
        }
    }

    /// The time of the event.
    pub open spec fn mtime_of(&self) -> u64 {
        match self {
            SyncEvent::Write { mtime, .. } => *mtime,
            SyncEvent::Delete { mtime, .. } => *mtime,
        }
    }

    /// The path this event refers to.
    pub fn path(&self) -> (r: &str)
        ensures
            r@ == self.path_of(),
    {
        match self {
            SyncEvent::Write { path, .. } => path.as_str(),
            SyncEvent::Delete { path, .. } => path.as_str(),
        }
    }

    /// The event's time, used to resolve conflicts (last writer wins).
    pub fn mtime(&self) -> (r: u64)
        ensures
            r == self.mtime_of(),
    {
        match self {
            SyncEvent::Write { mtime, .. } => *mtime,
            SyncEvent::Delete { mtime, .. } => *mtime,
        }
    }
}

/// The channel that carries events for a scan root.
pub trait SyncTransport: Send + Sync {
    /// Publishes `event` on the channel for `root`.
    fn publish(&self, root: &str, event: &SyncEvent) -> Result<(), SyncError>;

    /// The events published so far on the channel for `root`, in order.
    fn history(&self, root: &str) -> Result<Vec<SyncEvent>, SyncError>;
}

} // verus!
