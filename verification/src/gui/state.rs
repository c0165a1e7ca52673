//! What the desktop front end keeps between commands: the last finished
//! scan, the undo stack of moves to the trash, and whether a scan runs.
//! The front end holds it behind its own lock; the methods here take it
//! exclusively.
use vstd::prelude::*;
use crate::domain::ScanResult;

verus! {

/// One move to the trash: where the item was, and the trash's id for it.
#[derive(Debug, Clone)]
pub struct TrashEntry {
    /// The item's path before the move.
    pub original_path: String,
    /// The trash's identifier for the item, used to restore it.
    pub trash_id: String,
}

/// The state shared by the front end's commands.
#[derive(Debug)]
pub struct AppState {
    /// The most recent finished scan, if any.
    pub last_scan: Option<ScanResult>,
    /// The moves to the trash that can be undone, oldest first.
    pub trash_log: Vec<TrashEntry>,
    /// Whether a scan is running.
    pub scanning: bool,
}

impl AppState {
    /// No scan, nothing to undo, nothing running.
    pub fn new() -> (r: AppState)
        ensures
            r.last_scan is None,
            r.trash_log@.len() == 0,
            !r.scanning,
    {
        AppState { last_scan: None, trash_log: Vec::new(), scanning: false }
    }

    /// Records a move to the trash as the most recent one.
    pub fn push_trash(&mut self, entry: TrashEntry)
        ensures
            final(self).trash_log@ == old(self).trash_log@.push(entry),
            final(self).last_scan == old(self).last_scan,
            final(self).scanning == old(self).scanning,
    {
        self.trash_log.push(entry);
    }

    /// Takes the most recent move to the trash, if any.
    pub fn pop_trash(&mut self) -> (r: Option<TrashEntry>)
        ensures
            old(self).trash_log@.len() == 0 ==> r is None && final(self).trash_log@ == old(self).trash_log@,
            old(self).trash_log@.len() > 0 ==> r == Some(old(self).trash_log@.last())
                && final(self).trash_log@ == old(self).trash_log@.drop_last(),
            final(self).last_scan == old(self).last_scan,
            final(self).scanning == old(self).scanning,
    {
        self.trash_log.pop()
    }

    /// Number of moves that can be undone.
    pub fn trash_count(&self) -> (r: usize)
        ensures
            r == self.trash_log@.len(),
    {
        self.trash_log.len()
    }
}

impl Default for AppState {
    fn default() -> (r: AppState)
        ensures
            r.last_scan is None,
            r.trash_log@.len() == 0,
            !r.scanning,
    {
        AppState::new()
    }
}

} // verus!
