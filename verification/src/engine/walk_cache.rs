//! The byte form in which an incremental walk stores an entry: its size,
//! its modification time and the time it was stored, each as eight
//! little-endian bytes. A stored value shorter than sixteen bytes holds no
//! entry; one without the third field was stored at time 0.
use vstd::prelude::*;
use crate::engine::tree::{EntryV, FileEntry, NodeType};

verus! {

/// A walked entry as the incremental walk stores it, with the Unix time at
/// which it was stored.
#[derive(Debug, Clone)]
pub struct CachedEntry {
    pub entry: FileEntry,
    pub scan_time: u64,
}

/// Length of a complete stored value.
pub const STORED_LEN: usize = 24;

/// The eight little-endian bytes of `x`.
pub open spec fn le_bytes(x: u64) -> Seq<u8> {
    seq![
        x as u8,
        (x >> 8u64) as u8,
        (x >> 16u64) as u8,
        (x >> 24u64) as u8,
        (x >> 32u64) as u8,
        (x >> 40u64) as u8,
        (x >> 48u64) as u8,
        (x >> 56u64) as u8,
    ]
}

/// The number held little-endian in the eight bytes of `b` from `at`.
pub open spec fn le_value(b: Seq<u8>, at: int) -> u64 {
    (b[at] as u64) | ((b[at + 1] as u64) << 8u64) | ((b[at + 2] as u64) << 16u64) | ((b[at + 3] as u64)
        << 24u64) | ((b[at + 4] as u64) << 32u64) | ((b[at + 5] as u64) << 40u64) | ((b[at + 6] as u64)
        << 48u64) | ((b[at + 7] as u64) << 56u64)
}

/// The stored value of an entry.
pub open spec fn stored(size: u64, modified: u64, scan_time: u64) -> Seq<u8> {
    le_bytes(size) + le_bytes(modified) + le_bytes(scan_time)
}

/// The entry read back for `path` from a stored value of at least
/// sixteen bytes: a file at depth 0 with no name, which the caller fills
/// in.
pub open spec fn read_entry(path: Seq<char>, b: Seq<u8>) -> EntryV {
    EntryV {
        path,
        name: Seq::empty(),
        size: le_value(b, 0),
        modified: le_value(b, 8),
        node_type: NodeType::File,
        depth: 0,
    }
}

/// The stored time read back from a value of at least sixteen bytes.
pub open spec fn read_scan_time(b: Seq<u8>) -> u64 {
    if b.len() >= 24 {
        le_value(b, 16)
    } else {
        0
    }
}

/// Eight bytes read back as the number they were made from.
pub proof fn lemma_le_round_trip(x: u64)
    ensures
        le_value(le_bytes(x), 0) == x,
{
    let b = le_bytes(x);
    let b0: u8 = x as u8;
    let b1: u8 = (x >> 8u64) as u8;
    let b2: u8 = (x >> 16u64) as u8;
    let b3: u8 = (x >> 24u64) as u8;
    let b4: u8 = (x >> 32u64) as u8;
    let b5: u8 = (x >> 40u64) as u8;
    let b6: u8 = (x >> 48u64) as u8;
    let b7: u8 = (x >> 56u64) as u8;
    assert(b[0] == b0 && b[1] == b1 && b[2] == b2 && b[3] == b3);
    assert(b[4] == b4 && b[5] == b5 && b[6] == b6 && b[7] == b7);
    assert((b0 as u64) | ((b1 as u64) << 8u64) | ((b2 as u64) << 16u64) | ((b3 as u64) << 24u64) | ((
    b4 as u64) << 32u64) | ((b5 as u64) << 40u64) | ((b6 as u64) << 48u64) | ((b7 as u64) << 56u64)
        == x) by (bit_vector)
        requires
            b0 == x as u8,
            b1 == (x >> 8u64) as u8,
            b2 == (x >> 16u64) as u8,
            b3 == (x >> 24u64) as u8,
            b4 == (x >> 32u64) as u8,
            b5 == (x >> 40u64) as u8,
            b6 == (x >> 48u64) as u8,
            b7 == (x >> 56u64) as u8,
    ;
}

fn push_le(out: &mut Vec<u8>, x: u64)
    ensures
        final(out)@ == old(out)@ + le_bytes(x),
{
    out.push(x as u8);
    out.push((x >> 8u64) as u8);
    out.push((x >> 16u64) as u8);
    out.push((x >> 24u64) as u8);
    out.push((x >> 32u64) as u8);
    out.push((x >> 40u64) as u8);
    out.push((x >> 48u64) as u8);
    out.push((x >> 56u64) as u8);
    assert(final(out)@ =~= old(out)@ + le_bytes(x));
}

fn read_le(b: &[u8], at: usize) -> (r: u64)
    requires
        at + 8 <= b@.len(),
    ensures
        r == le_value(b@, at as int),
{
    (b[at] as u64) | ((b[at + 1] as u64) << 8u64) | ((b[at + 2] as u64) << 16u64) | ((b[at + 3] as u64)
        << 24u64) | ((b[at + 4] as u64) << 32u64) | ((b[at + 5] as u64) << 40u64) | ((b[at + 6] as u64)
        << 48u64) | ((b[at + 7] as u64) << 56u64)
}

/// The value stored for an entry: its size, modification time and the
/// time of storing.
pub fn encode_cached_entry(entry: &CachedEntry) -> (r: Vec<u8>)
    ensures
        r@ == stored(entry.entry.size, entry.entry.modified, entry.scan_time),
        r@.len() == STORED_LEN,
{
    let mut out: Vec<u8> = Vec::new();
    push_le(&mut out, entry.entry.size);
    push_le(&mut out, entry.entry.modified);
    push_le(&mut out, entry.scan_time);
    assert(out@ =~= stored(entry.entry.size, entry.entry.modified, entry.scan_time));
    out
}

/// The entry stored for `path` in `bytes`: none when fewer than sixteen
/// bytes are stored; otherwise a nameless file at depth 0 with the stored
/// size and time, and the stored time of storing (0 when it is missing).
pub fn decode_cached_entry(path: &str, bytes: &[u8]) -> (r: Option<CachedEntry>)
    ensures
        match r {
            None => bytes@.len() < 16,
            Some(c) => bytes@.len() >= 16 && c.entry.ev() == read_entry(path@, bytes@) && c.scan_time
                == read_scan_time(bytes@),
        },
{
    if bytes.len() < 16 {
        return None;
    }
    let size = read_le(bytes, 0);
    let modified = read_le(bytes, 8);
    let scan_time = if bytes.len() >= STORED_LEN {
        read_le(bytes, 16)
    } else {
        0
    };
    let entry = FileEntry {
        path: String::from_str(path),
        name: String::new(),
        size,
        modified,
        node_type: NodeType::File,
        depth: 0,
    };
    Some(CachedEntry { entry, scan_time })
}

/// Reading back what was stored for an entry gives its size, its
/// modification time and its time of storing.
pub proof fn law_stored_entry_round_trip(path: Seq<char>, size: u64, modified: u64, scan_time: u64)
    ensures
        read_entry(path, stored(size, modified, scan_time)).size == size,
        read_entry(path, stored(size, modified, scan_time)).modified == modified,
        read_scan_time(stored(size, modified, scan_time)) == scan_time,
{
    let b = stored(size, modified, scan_time);
    lemma_le_round_trip(size);
    lemma_le_round_trip(modified);
    lemma_le_round_trip(scan_time);
    assert(b.subrange(0, 8) =~= le_bytes(size));
    assert(b.subrange(8, 16) =~= le_bytes(modified));
    assert(b.subrange(16, 24) =~= le_bytes(scan_time));
    assert(le_value(b, 0) == le_value(le_bytes(size), 0));
    assert(le_value(b, 8) == le_value(le_bytes(modified), 0)) by {
        assert(forall|i: int| 0 <= i < 8 ==> b[8 + i] == le_bytes(modified)[i]);
    }
    assert(le_value(b, 16) == le_value(le_bytes(scan_time), 0)) by {
        assert(forall|i: int| 0 <= i < 8 ==> b[16 + i] == le_bytes(scan_time)[i]);
    }
}

} // verus!
