//! The life of the front end's current scan: idle, running, done (with
//! the result or the failure), and back. Starting is refused while a scan
//! runs; cancelling a finished scan changes nothing.
use vstd::prelude::*;
use crate::domain::{DomainError, ScanResult};
use crate::text::{dec, push_dec};

verus! {

/// Whether `c` is white space as Unicode's `White_Space` property has it,
/// the definition `str::trim` goes by.
pub open spec fn is_white_space(c: char) -> bool {
    ||| ('\u{9}' <= c && c <= '\u{d}')
    ||| c == ' '
    ||| c == '\u{85}'
    ||| c == '\u{a0}'
    ||| c == '\u{1680}'
    ||| ('\u{2000}' <= c && c <= '\u{200a}')
    ||| c == '\u{2028}'
    ||| c == '\u{2029}'
    ||| c == '\u{202f}'
    ||| c == '\u{205f}'
    ||| c == '\u{3000}'
}

/// The text without its leading white space.
pub open spec fn trimmed_start(s: Seq<char>) -> Seq<char>
    decreases s.len(),
{
    if s.len() > 0 && is_white_space(s[0]) {
        trimmed_start(s.drop_first())
    } else {
        s
    }
}

/// The text without its trailing white space.
pub open spec fn trimmed_end(s: Seq<char>) -> Seq<char>
    decreases s.len(),
{
    if s.len() > 0 && is_white_space(s.last()) {
        trimmed_end(s.drop_last())
    } else {
        s
    }
}

/// What `str::trim` gives for a text: the text without leading and
/// trailing white space.
pub open spec fn trimmed(s: Seq<char>) -> Seq<char> {
    trimmed_end(trimmed_start(s))
}

/// The text without leading and trailing white space (`str::trim`).
#[verifier::external_body]
pub(crate) fn trim_text(s: &str) -> (r: String)
    ensures
        r@ == trimmed(s@),
{
    s.trim().to_string()
}

/// Identifies a scan.
#[derive(Debug, Clone, Copy, PartialEq, Eq, Structural)]
pub struct ScanId(pub u64);

impl ScanId {
    /// The identifier in decimal.
    pub fn to_string(&self) -> (r: String)
        ensures
            r@ == dec(self.0 as nat),
    {
        let mut s = String::new();
        push_dec(&mut s, self.0 as u128);
        s
    }
}

/// Where the current scan stands.
#[derive(Debug)]
pub enum ScanPhase {
    /// No scan yet, or the last one was cancelled.
    Idle,
    /// A scan is in flight.
    Running { id: ScanId },
    /// A scan finished: its result, or the failure's message.
    Done { id: ScanId, result: Option<ScanResult>, error: Option<String> },
}

impl ScanPhase {
    /// Whether a scan has finished.
    pub fn is_done(&self) -> (r: bool)
        ensures
            r == (self is Done),
    {
        match self {
            ScanPhase::Done { .. } => true,
            _ => false,
        }
    }
}

/// The message when a scan is started while another runs.
pub open spec fn running_message(id: ScanId) -> Seq<char> {
    "a scan is already running (id "@ + dec(id.0 as nat) + ")"@
}

/// What starting a scan of `path` does.
pub open spec fn started(
    before: ScanLifecycle,
    path: Seq<char>,
    r: Result<(ScanId, String), DomainError>,
    after: ScanLifecycle,
) -> bool {
    if trimmed(path).len() == 0 {
        &&& r matches Err(DomainError::InvalidPath(m)) && m@ == "scan path must not be empty"@
        &&& after.phase == before.phase
        &&& after.next_id == before.next_id
    } else if before.phase is Running {
        &&& r matches Err(DomainError::InvalidPath(m)) && m@ == running_message(before.phase->Running_id)
        &&& after.phase == before.phase
        &&& after.next_id == before.next_id
    } else {
        let id = ScanId(before.next_id);
        &&& r matches Ok((i, p)) && i == id && p@ == trimmed(path)
        &&& after.phase == (ScanPhase::Running { id })
        &&& after.next_id == before.next_id.wrapping_add(1)
    }
}

/// What cancelling scan `id` does.
pub open spec fn cancelled(before: ScanLifecycle, id: ScanId, r: ScanId, after: ScanLifecycle) -> bool {
    &&& after.next_id == before.next_id
    &&& match before.phase {
        ScanPhase::Running { id: running } => if running == id {
            after.phase is Idle && r == id
        } else {
            after.phase == before.phase && r == id
        },
        ScanPhase::Done { id: done, .. } => after.phase == before.phase && r == done,
        ScanPhase::Idle => after.phase == before.phase && r == id,
    }
}

/// What collecting a scan's outcome does.
pub open spec fn collected(
    before: ScanLifecycle,
    finished: bool,
    outcome: Option<Result<ScanResult, String>>,
    r: Option<ScanId>,
    after: ScanLifecycle,
) -> bool {
    &&& after.next_id == before.next_id
    &&& if before.phase is Running && finished {
        let id = before.phase->Running_id;
        &&& r == Some(id)
        &&& match outcome {
            Some(Ok(res)) => after.phase == (ScanPhase::Done { id, result: Some(res), error: None }),
            Some(Err(e)) => after.phase == (ScanPhase::Done { id, result: None, error: Some(e) }),
            None => after.phase matches ScanPhase::Done { id: i, result: None, error: Some(m) } && i == id
                && m@ == "scan produced no result"@,
        }
    } else {
        r is None && after.phase == before.phase
    }
}

/// The current scan and the identifier the next one gets.
#[derive(Debug)]
pub struct ScanLifecycle {
    pub phase: ScanPhase,
    pub next_id: u64,
}

impl ScanLifecycle {
    /// Idle, the first scan to get identifier 1.
    pub fn new() -> (r: ScanLifecycle)
        ensures
            r.phase is Idle,
            r.next_id == 1,
    {
        ScanLifecycle { phase: ScanPhase::Idle, next_id: 1 }
    }

    /// Whether a finished scan is held.
    pub fn has_result(&self) -> (r: bool)
        ensures
            r == (self.phase is Done),
    {
        self.phase.is_done()
    }

    /// Whether a scan is in flight.
    pub fn is_running(&self) -> (r: bool)
        ensures
            r == (self.phase is Running),
    {
        match self.phase {
            ScanPhase::Running { .. } => true,
            _ => false,
        }
    }

    /// The result of the finished scan, when it succeeded.
    pub fn result(&self) -> (r: Option<&ScanResult>)
        ensures
            match self.phase {
                ScanPhase::Done { result: Some(res), .. } => r == Some(&res),
                _ => r is None,
            },
    {
        match &self.phase {
            ScanPhase::Done { result: Some(res), .. } => Some(res),
            _ => None,
        }
    }

    /// Starts a scan of `path` (white space around it dropped): refused
    /// when the path is blank or a scan is running; otherwise the scan
    /// gets the next identifier (which then advances, wrapping) and runs.
    /// Gives the identifier and the trimmed path.
    pub fn start(&mut self, path: &str) -> (r: Result<(ScanId, String), DomainError>)
        ensures
            started(*old(self), path@, r, *final(self)),
    {
        let p = trim_text(path);
        if p.unicode_len() == 0 {
            return Err(DomainError::InvalidPath(String::from_str("scan path must not be empty")));
        }
        if let ScanPhase::Running { id } = &self.phase {
            let mut m = String::from_str("a scan is already running (id ");
            push_dec(&mut m, id.0 as u128);
            m.append(")");
            return Err(DomainError::InvalidPath(m));
        }
        let id = ScanId(self.next_id);
        self.next_id = self.next_id.wrapping_add(1);
        self.phase = ScanPhase::Running { id };
        Ok((id, p))
    }

    /// Cancels scan `id`: a running scan with that identifier goes back to
    /// idle; a finished scan stays and its identifier is given; otherwise
    /// nothing changes and `id` is given back.
    pub fn cancel(&mut self, id: ScanId) -> (r: ScanId)
        ensures
            cancelled(*old(self), id, r, *final(self)),
    {
        match self.phase {
            ScanPhase::Running { id: running } => {
                if running == id {
                    self.phase = ScanPhase::Idle;
                }
                id
            },
            ScanPhase::Done { id: done, .. } => done,
            ScanPhase::Idle => id,
        }
    }

    /// Takes the outcome of the running scan once its work has
    /// `finished`: the scan becomes done with the result, or with the
    /// failure's message (or "scan produced no result" when nothing was
    /// handed over), and its identifier is given. Otherwise nothing
    /// changes.
    pub fn collect(&mut self, finished: bool, outcome: Option<Result<ScanResult, String>>) -> (r: Option<ScanId>)
        ensures
            collected(*old(self), finished, outcome, r, *final(self)),
    {
        if !finished {
            return None;
        }
        match self.phase {
            ScanPhase::Running { id } => {
                let (result, error) = match outcome {
                    Some(Ok(res)) => (Some(res), None),
                    Some(Err(e)) => (None, Some(e)),
                    None => (None, Some(String::from_str("scan produced no result"))),
                };
                self.phase = ScanPhase::Done { id, result, error };
                Some(id)
            },
            _ => None,
        }
    }
}

} // verus!
