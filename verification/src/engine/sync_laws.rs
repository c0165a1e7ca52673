//! What the synchronisation promises across calls: an event read back
//! from its wire form is the event sent, and a merged deletion keeps an
//! older write of the same path out.
use vstd::prelude::*;
use crate::domain::sync::{SyncError, SyncEvent};
use crate::domain::FileNodeV;
use crate::engine::sync::{byte_type, first_tomb, merged, type_byte, unwired, wire_of, without, TombV, WireEvent};
use crate::engine::treeops::{has_path, law_removed_lacks_path, removed};

verus! {

/// An event with its path as characters.
pub open spec fn event_view(e: SyncEvent) -> (bool, Seq<char>, u64, u64, u8) {
    match e {
        SyncEvent::Write { path, size, mtime, file_type } => (true, path@, size, mtime, type_byte(file_type)),
        SyncEvent::Delete { path, mtime } => (false, path@, 0, mtime, 0),
    }
}

/// Every type byte reads back as its type.
pub proof fn law_type_byte_round_trip(ft: crate::domain::FileType)
    ensures
        byte_type(type_byte(ft)) == Some(ft),
{
}

/// Reading the wire form of an event gives back the event: same kind,
/// path, time, and for a write the same size and type.
pub proof fn law_wire_round_trip(e: SyncEvent, w: WireEvent, r: Result<SyncEvent, SyncError>)
    requires
        wire_of(e, w),
        unwired(w, r),
    ensures
        r matches Ok(back) && event_view(back) == event_view(e),
{
    reveal_strlit("write");
    reveal_strlit("delete");
    assert("delete"@ != "write"@) by {
        assert("delete"@.len() != "write"@.len());
    }
    match e {
        SyncEvent::Write { file_type, .. } => {
            law_type_byte_round_trip(file_type);
        },
        SyncEvent::Delete { .. } => {},
    }
}

/// Once a deletion of a path below the root has been merged (it won over
/// the entry), a write of that path older than the deletion, from any
/// device, changes nothing: the tree and the tombstones stay as they are.
pub proof fn law_tombstone_blocks_older_write(
    root: FileNodeV,
    ts: Seq<TombV>,
    del: SyncEvent,
    del_dev: Seq<char>,
    write: SyncEvent,
    write_dev: Seq<char>,
)
    requires
        del is Delete,
        write is Write,
        write.path_of() == del.path_of(),
        write.mtime_of() < del.mtime_of(),
        root.path != del.path_of(),
        merged(root, ts, del, del_dev).2,
    ensures
        ({
            let after = merged(root, ts, del, del_dev);
            merged(after.0, after.1, write, write_dev) == (after.0, after.1, false)
        }),
{
    let p = del.path_of();
    let after = merged(root, ts, del, del_dev);
    assert(has_path(root, p));
    assert(after.0 == removed(root, p));
    law_removed_lacks_path(root, p);
    lemma_first_tomb_after_push(ts, p, (p, del.mtime_of(), del_dev));
}

/// After the tombstones of `p` are dropped and a new one pushed, the new
/// one is the first tombstone of `p`.
proof fn lemma_first_tomb_after_push(ts: Seq<TombV>, p: Seq<char>, t: TombV)
    requires
        t.0 == p,
    ensures
        first_tomb(without(ts, p).push(t), p) == Some(t),
    decreases ts.len(),
{
    let w = without(ts, p);
    lemma_without_lacks(ts, p);
    lemma_first_tomb_skip(w, p, t);
}

proof fn lemma_without_lacks(ts: Seq<TombV>, p: Seq<char>)
    ensures
        forall|i: int| 0 <= i < without(ts, p).len() ==> (#[trigger] without(ts, p)[i]).0 != p,
    decreases ts.len(),
{
    if ts.len() > 0 {
        lemma_without_lacks(ts.drop_last(), p);
        let rest = without(ts.drop_last(), p);
        if ts.last().0 != p {
            assert forall|i: int| 0 <= i < rest.push(ts.last()).len() implies (#[trigger] rest.push(ts.last())[i]).0 != p by {
                if i < rest.len() {
                    assert(rest.push(ts.last())[i] == rest[i]);
                }
            }
        }
    }
}

proof fn lemma_first_tomb_skip(w: Seq<TombV>, p: Seq<char>, t: TombV)
    requires
        t.0 == p,
        forall|i: int| 0 <= i < w.len() ==> (#[trigger] w[i]).0 != p,
    ensures
        first_tomb(w.push(t), p) == Some(t),
    decreases w.len(),
{
    if w.len() > 0 {
        assert(w.push(t)[0] == w[0]);
        assert(w.push(t).drop_first() =~= w.drop_first().push(t));
        lemma_first_tomb_skip(w.drop_first(), p, t);
    } else {
        assert(w.push(t)[0] == t);
    }
}

} // verus!
