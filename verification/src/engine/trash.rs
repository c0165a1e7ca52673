//! The bookkeeping of moves to the trash: a stack of what can be undone,
//! and the choice of the trash entry a move created.
use vstd::prelude::*;
use crate::paths::{path_equal, same_path};
use crate::domain::DomainError;
use crate::text::str_eq;

verus! {

/// The moves that can be undone, most recent last.
#[derive(Debug)]
pub struct UndoStack<T> {
    items: Vec<T>,
}

impl<T> View for UndoStack<T> {
    type V = Seq<T>;

    closed spec fn view(&self) -> Seq<T> {
        self.items@
    }
}

impl<T> UndoStack<T> {
    /// An empty stack.
    pub fn new() -> (r: UndoStack<T>)
        ensures
            r@ == Seq::<T>::empty(),
    {
        UndoStack { items: Vec::new() }
    }

    /// Records a move.
    pub fn push(&mut self, x: T)
        ensures
            final(self)@ == old(self)@.push(x),
    {
        self.items.push(x);
    }

    /// Takes the most recent move, if any.
    pub fn pop(&mut self) -> (r: Option<T>)
        ensures
            old(self)@.len() == 0 ==> r is None && final(self)@ == old(self)@,
            old(self)@.len() > 0 ==> r == Some(old(self)@.last()) && final(self)@ == old(self)@.drop_last(),
    {
        self.items.pop()
    }

    /// Number of moves that can be undone.
    pub fn len(&self) -> (r: usize)
        ensures
            r == self@.len(),
    {
        self.items.len()
    }

    /// Takes the most recent move for undoing; with none recorded, the
    /// "nothing to undo" error and the stack as it was.
    pub fn take_last(&mut self) -> (r: Result<T, DomainError>)
        ensures
            old(self)@.len() == 0 ==> final(self)@ == old(self)@,
            old(self)@.len() == 0 ==> (r matches Err(DomainError::InvalidPath(m)) && m@ == "nothing to undo"@),
            old(self)@.len() > 0 ==> r == Ok::<T, DomainError>(old(self)@.last()) && final(self)@ == old(
                self,
            )@.drop_last(),
    {
        match self.items.pop() {
            Some(x) => Ok(x),
            None => Err(DomainError::InvalidPath(String::from_str("nothing to undo"))),
        }
    }
}

/// Undo takes back the latest move: after recording `x`, taking the last
/// move gives `x` and leaves the stack as it was before.
pub proof fn law_undo_takes_latest<T>(s: Seq<T>, x: T)
    ensures
        s.push(x).len() > 0,
        s.push(x).last() == x,
        s.push(x).drop_last() == s,
{
    assert(s.push(x).drop_last() =~= s);
}

/// An entry of the system trash: its identifier and where it came from.
#[derive(Debug, Clone)]
pub struct TrashedItem {
    pub id: String,
    pub original_path: String,
}

/// Whether `ids` holds `id`.
pub open spec fn has_id(ids: Seq<String>, id: Seq<char>) -> bool {
    exists|k: int| 0 <= k < ids.len() && ids[k]@ == id
}

/// Whether trash entry `it` is the one a move of `path` created: it came
/// from `path` (as paths compare, see [`path_equal`]) and, when the trash
/// was listed before the move, it was not there then.
pub open spec fn is_new_entry(it: TrashedItem, before: Option<Seq<String>>, path: Seq<char>) -> bool {
    &&& path_equal(it.original_path@, path)
    &&& match before {
        Some(ids) => !has_id(ids, it.id@),
        None => true,
    }
}

fn contains_id(ids: &Vec<String>, id: &str) -> (r: bool)
    ensures
        r == has_id(ids@, id@),
{
    let mut k: usize = 0;
    while k < ids.len()
        invariant
            k <= ids@.len(),
            forall|j: int| 0 <= j < k ==> ids@[j]@ != id@,
        decreases ids@.len() - k,
    {
        if str_eq(ids[k].as_str(), id) {
            return true;
        }
        k = k + 1;
    }
    false
}

/// The position of the first trash entry that a move of `path` created,
/// given the trash after the move and the identifiers it held before (when
/// it could be listed).
pub fn pick_trashed(after: &Vec<TrashedItem>, before: &Option<Vec<String>>, path: &str) -> (r: Option<usize>)
    ensures
        ({
            let b = match before {
                Some(v) => Some(v@),
                None => None,
            };
            match r {
                Some(j) => j < after@.len() && is_new_entry(after@[j as int], b, path@) && forall|k: int|
                    0 <= k < j ==> !is_new_entry(#[trigger] after@[k], b, path@),
                None => forall|k: int| 0 <= k < after@.len() ==> !is_new_entry(#[trigger] after@[k], b, path@),
            }
        }),
{
    let ghost b = match before {
        Some(v) => Some(v@),
        None => None,
    };
    let mut j: usize = 0;
    while j < after.len()
        invariant
            j <= after@.len(),
            b == match before {
                Some(v) => Some(v@),
                None => None::<Seq<String>>,
            },
            forall|k: int| 0 <= k < j ==> !is_new_entry(#[trigger] after@[k], b, path@),
        decreases after@.len() - j,
    {
        let it = &after[j];
        let fresh = match before {
            Some(ids) => !contains_id(ids, it.id.as_str()),
            None => true,
        };
        if same_path(it.original_path.as_str(), path) && fresh {
            return Some(j);
        }
        j = j + 1;
    }
    None
}

/// Checks the path of a move: an empty path is refused.
pub fn check_trash_path(path: &str) -> (r: Result<(), DomainError>)
    ensures
        path@.len() == 0 <==> r is Err,
        r matches Err(e) ==> (e matches DomainError::InvalidPath(m) && m@ == "path must not be empty"@),
{
    if path.unicode_len() == 0 {
        Err(DomainError::InvalidPath(String::from_str("path must not be empty")))
    } else {
        Ok(())
    }
}

} // verus!
