//! Synchronisation of scan results between devices: the wire form of
//! change events, the conflict order of two events, and the merge of an
//! event into a tree (last writer wins by time; equal times are settled
//! by device id; deletions leave tombstones that older writes cannot
//! pass).
use vstd::prelude::*;
use std::cmp::Ordering;
use crate::domain::sync::{SyncError, SyncEvent};
use crate::domain::{FileNode, FileNodeV, FileType, ScanResult, Tombstone};
use crate::engine::treeops::{
    attach_node, attached, find_fields, found, has_path, remove_node, removed, update_first,
    updated,
};
use crate::sorting::{lemma_lex_antisym, lemma_lex_total, lex_le, lex_le_exec};
use crate::text::{chars_of, dec, push_dec, str_eq};

verus! {

/// The wire form of an event: kind (`write` or `delete`), path, size
/// (zero for deletions), time and type byte.
#[derive(Debug, Clone, PartialEq, Eq)]
pub struct WireEvent {
    pub kind: String,
    pub path: String,
    pub size: u64,
    pub mtime: u64,
    pub file_type: u8,
}

/// The byte of a type on the wire (1 to 8).
pub open spec fn type_byte(ft: FileType) -> u8 {
    match ft {
        FileType::Audio => 1,
        FileType::Video => 2,
        FileType::Image => 3,
        FileType::Document => 4,
        FileType::Code => 5,
        FileType::Archive => 6,
        FileType::Directory => 7,
        FileType::Other => 8,
    }
}

/// The type of a wire byte, if it is one.
pub open spec fn byte_type(b: u8) -> Option<FileType> {
    if b == 1 {
        Some(FileType::Audio)
    } else if b == 2 {
        Some(FileType::Video)
    } else if b == 3 {
        Some(FileType::Image)
    } else if b == 4 {
        Some(FileType::Document)
    } else if b == 5 {
        Some(FileType::Code)
    } else if b == 6 {
        Some(FileType::Archive)
    } else if b == 7 {
        Some(FileType::Directory)
    } else if b == 8 {
        Some(FileType::Other)
    } else {
        None
    }
}

/// The wire byte of a type.
pub fn file_type_to_byte(ft: FileType) -> (b: u8)
    ensures
        b == type_byte(ft),
{
    match ft {
        FileType::Audio => 1,
        FileType::Video => 2,
        FileType::Image => 3,
        FileType::Document => 4,
        FileType::Code => 5,
        FileType::Archive => 6,
        FileType::Directory => 7,
        FileType::Other => 8,
    }
}

/// The type of a wire byte, if it is one.
pub fn byte_to_file_type(b: u8) -> (r: Option<FileType>)
    ensures
        r == byte_type(b),
{
    if b == 1 {
        Some(FileType::Audio)
    } else if b == 2 {
        Some(FileType::Video)
    } else if b == 3 {
        Some(FileType::Image)
    } else if b == 4 {
        Some(FileType::Document)
    } else if b == 5 {
        Some(FileType::Code)
    } else if b == 6 {
        Some(FileType::Archive)
    } else if b == 7 {
        Some(FileType::Directory)
    } else if b == 8 {
        Some(FileType::Other)
    } else {
        None
    }
}

/// The `Debug` text of a string (`format!("{:?}")`: quoted, with
/// escapes).
pub uninterp spec fn str_debug(s: Seq<char>) -> Seq<char>;

/// `format!("{:?}", s)` for a `&str`.
#[verifier::external_body]
fn debug_text(s: &str) -> (r: String)
    ensures
        r@ == str_debug(s@),
{
    format!("{s:?}")
}

/// `w` is the wire form of `e`: its kind, path and time, the size and
/// type byte for a write, zeros for a deletion.
pub open spec fn wire_of(e: SyncEvent, w: WireEvent) -> bool {
    match e {
        SyncEvent::Write { path, size, mtime, file_type } => w.kind@ == "write"@ && w.path@ == path@
            && w.size == size && w.mtime == mtime && w.file_type == type_byte(file_type),
        SyncEvent::Delete { path, mtime } => w.kind@ == "delete"@ && w.path@ == path@ && w.size == 0
            && w.mtime == mtime && w.file_type == 0,
    }
}

/// The wire form of an event.
pub fn to_wire(event: &SyncEvent) -> (w: WireEvent)
    ensures
        wire_of(*event, w),
{
    match event {
        SyncEvent::Write { path, size, mtime, file_type } => WireEvent {
            kind: String::from_str("write"),
            path: path.clone(),
            size: *size,
            mtime: *mtime,
            file_type: file_type_to_byte(*file_type),
        },
        SyncEvent::Delete { path, mtime } => WireEvent {
            kind: String::from_str("delete"),
            path: path.clone(),
            size: 0,
            mtime: *mtime,
            file_type: 0,
        },
    }
}

/// `r` is what reading wire form `w` gives: a write needs a known type
/// byte; any kind other than `write` and `delete` is refused.
pub open spec fn unwired(wire: WireEvent, r: Result<SyncEvent, SyncError>) -> bool {
    &&& wire.kind@ == "write"@ ==> match byte_type(wire.file_type) {
        Some(ft) => r matches Ok(SyncEvent::Write { path, size, mtime, file_type }) && path@ == wire.path@
            && size == wire.size && mtime == wire.mtime && file_type == ft,
        None => r matches Err(SyncError::Serialize(m)) && m@ == "unknown file type byte "@ + dec(
            wire.file_type as nat,
        ),
    }
    &&& wire.kind@ == "delete"@ ==> (r matches Ok(SyncEvent::Delete { path, mtime }) && path@ == wire.path@
        && mtime == wire.mtime)
    &&& wire.kind@ != "write"@ && wire.kind@ != "delete"@ ==> (r matches Err(SyncError::Serialize(m))
        && m@ == "unknown event kind "@ + str_debug(wire.kind@))
}

/// The event of a wire form: a write needs a known type byte; any kind
/// other than `write` and `delete` is refused.
pub fn from_wire(wire: &WireEvent) -> (r: Result<SyncEvent, SyncError>)
    ensures
        unwired(*wire, r),
{
    let k = wire.kind.as_str();
    proof {
        reveal_strlit("write");
        reveal_strlit("delete");
        assert("delete"@ != "write"@) by {
            assert("delete"@.len() != "write"@.len());
        }
    }
    if str_eq(k, "write") {
        match byte_to_file_type(wire.file_type) {
            Some(ft) => Ok(
                SyncEvent::Write { path: wire.path.clone(), size: wire.size, mtime: wire.mtime, file_type: ft },
            ),
            None => {
                let mut m = String::from_str("unknown file type byte ");
                push_dec(&mut m, wire.file_type as u128);
                Err(SyncError::Serialize(m))
            },
        }
    } else if str_eq(k, "delete") {
        Ok(SyncEvent::Delete { path: wire.path.clone(), mtime: wire.mtime })
    } else {
        let mut m = String::from_str("unknown event kind ");
        let d = debug_text(k);
        m.append(d.as_str());
        Err(SyncError::Serialize(m))
    }
}

// ── channel names ────────────────────────────────────────────────────────

/// One step of 64-bit FNV-1a: xor the byte in, multiply by the prime,
/// keep the low 64 bits.
pub open spec fn fnv_step(h: u64, b: u8) -> u64 {
    (((h ^ (b as u64)) as nat * 1099511628211nat) % 18446744073709551616nat) as u64
}

/// 64-bit FNV-1a of a byte sequence.
pub open spec fn fnv1a(bytes: Seq<u8>) -> u64
    decreases bytes.len(),
{
    if bytes.len() == 0 {
        14695981039346656037u64
    } else {
        fnv_step(fnv1a(bytes.drop_last()), bytes.last())
    }
}

/// The lower-case hex digit of `d` (0 to 15).
pub open spec fn hex_digit(d: nat) -> char {
    if d < 10 {
        crate::text::digit_char(d)
    } else if d == 10 {
        'a'
    } else if d == 11 {
        'b'
    } else if d == 12 {
        'c'
    } else if d == 13 {
        'd'
    } else if d == 14 {
        'e'
    } else {
        'f'
    }
}

/// 16^k.
pub open spec fn pow16(k: nat) -> nat
    decreases k,
{
    if k == 0 {
        1
    } else {
        16 * pow16((k - 1) as nat)
    }
}

/// `h` as 16 lower-case hex digits (`{:016x}`).
pub open spec fn hex16(h: u64) -> Seq<char> {
    Seq::new(16, |i: int| hex_digit(((h as nat / pow16((15 - i) as nat)) % 16) as nat))
}

/// The channel name of a scan root: a fixed prefix and the FNV-1a hash of
/// the root's UTF-8 bytes in hex, so the path itself is not shown.
pub open spec fn channel_name_of(root: Seq<char>) -> Seq<char> {
    "diskscope-scan-"@ + hex16(fnv1a(vstd::utf8::encode_utf8(root)))
}

fn hex_char(d: u64) -> (c: char)
    requires
        d < 16,
    ensures
        c == hex_digit(d as nat),
{
    if d < 10 {
        crate::text::digit_char_exec(d)
    } else if d == 10 {
        'a'
    } else if d == 11 {
        'b'
    } else if d == 12 {
        'c'
    } else if d == 13 {
        'd'
    } else if d == 14 {
        'e'
    } else {
        'f'
    }
}

/// The channel name of a scan root.
pub fn channel_name(root: &str) -> (r: String)
    ensures
        r@ == channel_name_of(root@),
{
    let bytes = root.as_bytes();
    let mut hash: u64 = 14695981039346656037u64;
    let mut i: usize = 0;
    while i < bytes.len()
        invariant
            i <= bytes@.len(),
            bytes@ == vstd::utf8::encode_utf8(root@),
            hash == fnv1a(bytes@.take(i as int)),
        decreases bytes@.len() - i,
    {
        assert(bytes@.take(i + 1).drop_last() =~= bytes@.take(i as int));
        hash = hash ^ (bytes[i] as u64);
        hash = hash.wrapping_mul(1099511628211u64);
        i = i + 1;
    }
    assert(bytes@.take(i as int) =~= bytes@);
    let mut s = String::from_str("diskscope-scan-");
    let ghost head = s@;
    let mut p: u64 = 1152921504606846976u64;
    let mut k: usize = 0;
    proof {
        lemma_pow16(15);
    }
    while k < 16
        invariant
            k <= 16,
            k < 16 ==> p as nat == pow16((15 - k) as nat),
            s@ == head + hex16(hash).take(k as int),
        decreases 16 - k,
    {
        proof {
            lemma_pow16(15 - k);
        }
        let d = (hash / p) % 16;
        crate::text::push_char(&mut s, hex_char(d));
        assert(s@ =~= head + hex16(hash).take(k + 1));
        if k < 15 {
            p = p / 16;
        }
        k = k + 1;
    }
    assert(hex16(hash).take(16) =~= hex16(hash));
    s
}

proof fn lemma_pow16(k: int)
    requires
        0 <= k <= 15,
    ensures
        1 <= pow16(k as nat) <= 1152921504606846976,
        k >= 1 ==> pow16(k as nat) == 16 * pow16((k - 1) as nat),
        k == 15 ==> pow16(k as nat) == 1152921504606846976,
{
    reveal_with_fuel(pow16, 16);
}

// ── conflict order ───────────────────────────────────────────────────────

/// The conflict order of event `a` (from device `ad`) against event `b`
/// (from device `bd`): the later time wins; at equal times the larger
/// device id; at equal ids a deletion beats a write.
pub open spec fn event_order(a_mtime: u64, a_delete: bool, ad: Seq<char>, b_mtime: u64, b_delete: bool, bd: Seq<char>) -> Ordering {
    if a_mtime > b_mtime {
        Ordering::Greater
    } else if a_mtime < b_mtime {
        Ordering::Less
    } else if ad != bd {
        if lex_le(ad, bd) {
            Ordering::Less
        } else {
            Ordering::Greater
        }
    } else if a_delete && !b_delete {
        Ordering::Greater
    } else if !a_delete && b_delete {
        Ordering::Less
    } else {
        Ordering::Equal
    }
}

/// The order with its sides swapped.
pub open spec fn flipped(o: Ordering) -> Ordering {
    match o {
        Ordering::Less => Ordering::Greater,
        Ordering::Equal => Ordering::Equal,
        Ordering::Greater => Ordering::Less,
    }
}

/// Comparing two events the other way round gives the opposite order, so
/// every device picks the same winner.
pub proof fn law_event_order_antisymmetric(
    a_mtime: u64,
    a_delete: bool,
    ad: Seq<char>,
    b_mtime: u64,
    b_delete: bool,
    bd: Seq<char>,
)
    ensures
        event_order(b_mtime, b_delete, bd, a_mtime, a_delete, ad) == flipped(
            event_order(a_mtime, a_delete, ad, b_mtime, b_delete, bd),
        ),
{
    if ad != bd {
        lemma_lex_total(ad, bd);
        if lex_le(ad, bd) && lex_le(bd, ad) {
            lemma_lex_antisym(ad, bd);
        }
    }
}

/// Whether an event is a deletion.
pub open spec fn is_delete(e: SyncEvent) -> bool {
    e is Delete
}

/// The conflict order of event `a` from device `a_device` against event
/// `b` from device `b_device`; `Greater` means `a` wins.
pub fn compare_events(a: &SyncEvent, a_device: &str, b: &SyncEvent, b_device: &str) -> (r: Ordering)
    ensures
        r == event_order(
            a.mtime_of(),
            is_delete(*a),
            a_device@,
            b.mtime_of(),
            is_delete(*b),
            b_device@,
        ),
{
    let am = a.mtime();
    let bm = b.mtime();
    if am > bm {
        return Ordering::Greater;
    }
    if am < bm {
        return Ordering::Less;
    }
    if !str_eq(a_device, b_device) {
        let x = chars_of(a_device);
        let y = chars_of(b_device);
        if lex_le_exec(&x, &y) {
            return Ordering::Less;
        } else {
            return Ordering::Greater;
        }
    }
    match (a, b) {
        (SyncEvent::Delete { .. }, SyncEvent::Write { .. }) => Ordering::Greater,
        (SyncEvent::Write { .. }, SyncEvent::Delete { .. }) => Ordering::Less,
        _ => Ordering::Equal,
    }
}

// ── merging ──────────────────────────────────────────────────────────────

/// What a tombstone holds: path, time, device.
pub type TombV = (Seq<char>, u64, Seq<char>);

/// The values of tombstones.
pub open spec fn tombs_v(ts: Seq<Tombstone>) -> Seq<TombV> {
    ts.map_values(|t: Tombstone| (t.path@, t.mtime, t.device@))
}

/// The first tombstone for path `p`.
pub open spec fn first_tomb(ts: Seq<TombV>, p: Seq<char>) -> Option<TombV>
    decreases ts.len(),
{
    if ts.len() == 0 {
        None
    } else if ts[0].0 == p {
        Some(ts[0])
    } else {
        first_tomb(ts.drop_first(), p)
    }
}

/// The tombstones for paths other than `p`.
pub open spec fn without(ts: Seq<TombV>, p: Seq<char>) -> Seq<TombV>
    decreases ts.len(),
{
    if ts.len() == 0 {
        Seq::empty()
    } else {
        let rest = without(ts.drop_last(), p);
        if ts.last().0 == p {
            rest
        } else {
            rest.push(ts.last())
        }
    }
}

/// The root of a tree with nothing merged into it yet: a directory with
/// an empty path, no size, no time and no children.
pub open spec fn empty_root() -> FileNodeV {
    FileNodeV { path: Seq::empty(), size: 0, modified: 0, file_type: FileType::Directory, children: Seq::empty() }
}

/// The device id entries of the local tree are taken to come from.
pub const LOCAL_DEVICE: &'static str = "device";

/// The device id an entry is taken to come from: none (below every real
/// id) for an entry without a sync time, otherwise the local device.
pub open spec fn owner_id(path: Seq<char>, modified: u64) -> Seq<char> {
    if modified == 0 {
        Seq::empty()
    } else {
        LOCAL_DEVICE@
    }
}

/// A leaf with the given fields.
pub open spec fn leaf_v(path: Seq<char>, size: u64, mtime: u64, ft: FileType) -> FileNodeV {
    FileNodeV { path, size, modified: mtime, file_type: ft, children: Seq::empty() }
}

/// The tree and tombstones after merging `ev` from device `dev`, and
/// whether the tree changed. A write to a present path wins when it is
/// later (or wins the tie) than the entry; a write to an absent path is
/// attached unless a tombstone for the path wins over it; a deletion of a
/// present path wins like a write, removes the path and leaves a
/// tombstone; a deletion of an absent path changes nothing.
pub open spec fn merged(root: FileNodeV, ts: Seq<TombV>, ev: SyncEvent, dev: Seq<char>) -> (FileNodeV, Seq<TombV>, bool) {
    match ev {
        SyncEvent::Write { path, size, mtime, file_type } => {
            let p = path@;
            if has_path(root, p) {
                let f = found(root, p);
                if event_order(mtime, false, dev, f.modified, false, owner_id(p, f.modified))
                    == Ordering::Greater {
                    (updated(root, p, size, mtime, file_type), ts, true)
                } else {
                    (root, ts, false)
                }
            } else {
                match first_tomb(ts, p) {
                    Some(t) => if event_order(mtime, false, dev, t.1, true, t.2) == Ordering::Greater {
                        (attached(root, leaf_v(p, size, mtime, file_type)), without(ts, p), true)
                    } else {
                        (root, ts, false)
                    },
                    None => (attached(root, leaf_v(p, size, mtime, file_type)), ts, true),
                }
            }
        },
        SyncEvent::Delete { path, mtime } => {
            let p = path@;
            if has_path(root, p) {
                let f = found(root, p);
                if event_order(mtime, true, dev, f.modified, false, owner_id(p, f.modified))
                    == Ordering::Greater {
                    (removed(root, p), without(ts, p).push((p, mtime, dev)), true)
                } else {
                    (root, ts, false)
                }
            } else {
                (root, ts, false)
            }
        },
    }
}

/// The device id an entry is taken to come from.
pub fn node_owner_id(path: &str, modified: u64) -> (r: String)
    ensures
        r@ == owner_id(path@, modified),
{
    if modified == 0 {
        String::new()
    } else {
        String::from_str(LOCAL_DEVICE)
    }
}

fn find_tomb(ts: &Vec<Tombstone>, p: &str) -> (r: Option<usize>)
    ensures
        match r {
            Some(i) => i < ts@.len() && first_tomb(tombs_v(ts@), p@) == Some(tombs_v(ts@)[i as int]),
            None => first_tomb(tombs_v(ts@), p@) is None,
        },
{
    let mut i: usize = 0;
    assert(tombs_v(ts@).skip(0) =~= tombs_v(ts@));
    while i < ts.len()
        invariant
            i <= ts@.len(),
            first_tomb(tombs_v(ts@), p@) == first_tomb(tombs_v(ts@).skip(i as int), p@),
        decreases ts@.len() - i,
    {
        assert(tombs_v(ts@).skip(i as int)[0] == tombs_v(ts@)[i as int]);
        assert(tombs_v(ts@).skip(i as int).drop_first() =~= tombs_v(ts@).skip(i + 1));
        if str_eq(ts[i].path.as_str(), p) {
            return Some(i);
        }
        i = i + 1;
    }
    None
}

fn drop_tombs(ts: &mut Vec<Tombstone>, p: &str)
    ensures
        tombs_v(final(ts)@) == without(tombs_v(old(ts)@), p@),
{
    let mut olds: Vec<Tombstone> = Vec::new();
    std::mem::swap(&mut olds, ts);
    let ghost o = tombs_v(olds@);
    let mut i: usize = 0;
    while i < olds.len()
        invariant
            i <= olds@.len(),
            o == tombs_v(olds@),
            o == tombs_v(old(ts)@),
            tombs_v(ts@) == without(o.take(i as int), p@),
        decreases olds@.len() - i,
    {
        assert(o.take(i + 1).drop_last() =~= o.take(i as int));
        if !str_eq(olds[i].path.as_str(), p) {
            let t = Tombstone {
                path: olds[i].path.clone(),
                mtime: olds[i].mtime,
                device: olds[i].device.clone(),
            };
            let ghost before = ts@;
            ts.push(t);
            assert(tombs_v(ts@) =~= tombs_v(before).push(o[i as int]));
        }
        i = i + 1;
    }
    assert(o.take(i as int) =~= o);
}

/// Merges `event`, produced by device `device_id`, into `tree`; whether
/// the tree changed. Only the root and the tombstones change.
pub fn merge_event(tree: &mut ScanResult, event: &SyncEvent, device_id: &str) -> (r: bool)
    ensures
        (final(tree).root@, tombs_v(final(tree).tombstones@), r) == merged(
            old(tree).root@,
            tombs_v(old(tree).tombstones@),
            *event,
            device_id@,
        ),
        final(tree).total_size == old(tree).total_size,
        final(tree).file_count == old(tree).file_count,
        final(tree).scan_duration_ms == old(tree).scan_duration_ms,
        final(tree).skipped@ == old(tree).skipped@,
{
    match event {
        SyncEvent::Write { path, size, mtime, file_type } => {
            match find_fields(&tree.root, path.as_str()) {
                Some((fsize, fmod, fft)) => {
                    let owner = node_owner_id(path.as_str(), fmod);
                    let local = SyncEvent::Write { path: path.clone(), size: fsize, mtime: fmod, file_type: fft };
                    let order = compare_events(event, device_id, &local, owner.as_str());
                    match order {
                        Ordering::Greater => {
                            update_first(&mut tree.root, path.as_str(), *size, *mtime, *file_type);
                            true
                        },
                        _ => false,
                    }
                },
                None => {
                    match find_tomb(&tree.tombstones, path.as_str()) {
                        Some(i) => {
                            let tomb = SyncEvent::Delete { path: path.clone(), mtime: tree.tombstones[i].mtime };
                            let order = compare_events(event, device_id, &tomb, tree.tombstones[i].device.as_str());
                            match order {
                                Ordering::Greater => {
                                    drop_tombs(&mut tree.tombstones, path.as_str());
                                    let node = FileNode {
                                        path: path.clone(),
                                        size: *size,
                                        modified: *mtime,
                                        file_type: *file_type,
                                        children: Vec::new(),
                                    };
                                    proof {
                                        assert(node@.children =~= Seq::<FileNodeV>::empty());
                                    }
                                    attach_node(&mut tree.root, node);
                                    true
                                },
                                _ => false,
                            }
                        },
                        None => {
                            let node = FileNode {
                                path: path.clone(),
                                size: *size,
                                modified: *mtime,
                                file_type: *file_type,
                                children: Vec::new(),
                            };
                            proof {
                                assert(node@.children =~= Seq::<FileNodeV>::empty());
                            }
                            attach_node(&mut tree.root, node);
                            true
                        },
                    }
                },
            }
        },
        SyncEvent::Delete { path, mtime } => {
            match find_fields(&tree.root, path.as_str()) {
                None => false,
                Some((fsize, fmod, fft)) => {
                    let owner = node_owner_id(path.as_str(), fmod);
                    let local = SyncEvent::Write { path: path.clone(), size: fsize, mtime: fmod, file_type: fft };
                    let order = compare_events(event, device_id, &local, owner.as_str());
                    match order {
                        Ordering::Greater => {
                            remove_node(&mut tree.root, path.as_str());
                            drop_tombs(&mut tree.tombstones, path.as_str());
                            let ghost before = tree.tombstones@;
                            tree.tombstones.push(
                                Tombstone { path: path.clone(), mtime: *mtime, device: String::from_str(device_id) },
                            );
                            proof {
                                assert(tombs_v(tree.tombstones@) =~= tombs_v(before).push((path@, *mtime, device_id@)));
                            }
                            true
                        },
                        _ => false,
                    }
                },
            }
        },
    }
}

/// A write event for the node and every descendant, in pre-order.
pub fn collect_events(node: &FileNode, out: &mut Vec<SyncEvent>)
    ensures
        final(out)@.len() == old(out)@.len() + crate::domain::preorder_v(node@).len(),
        forall|i: int|
            0 <= i < crate::domain::preorder_v(node@).len() ==> write_of(
                #[trigger] final(out)@[old(out)@.len() + i],
                crate::domain::preorder_v(node@)[i],
            ),
        forall|i: int| 0 <= i < old(out)@.len() ==> final(out)@[i] == old(out)@[i],
    decreases node,
{
    let ghost start = out@;
    out.push(SyncEvent::Write { path: node.path.clone(), size: node.size, mtime: node.modified, file_type: node.file_type });
    let ghost mid_len = out@.len();
    let mut k: usize = 0;
    while k < node.children.len()
        invariant
            k <= node.children@.len(),
            mid_len == start.len() + 1,
            out@.len() == mid_len + crate::domain::preorder_list(node@, k as nat).len(),
            write_of(out@[start.len() as int], node@),
            forall|i: int| 0 <= i < start.len() ==> out@[i] == start[i],
            forall|i: int|
                0 <= i < crate::domain::preorder_list(node@, k as nat).len() ==> write_of(
                    #[trigger] out@[mid_len + i],
                    crate::domain::preorder_list(node@, k as nat)[i],
                ),
        decreases node.children@.len() - k,
    {
        assert(node@.children[k as int] == node.children@[k as int]@);
        let ghost before = out@;
        collect_events(&node.children[k], out);
        proof {
            let a = crate::domain::preorder_list(node@, k as nat);
            let b = crate::domain::preorder_v(node@.children[k as int]);
            assert(crate::domain::preorder_list(node@, (k + 1) as nat) == a + b);
            assert forall|i: int| 0 <= i < (a + b).len() implies write_of(
                #[trigger] out@[mid_len + i],
                (a + b)[i],
            ) by {
                if i < a.len() {
                    assert(out@[mid_len + i] == before[mid_len + i]);
                } else {
                    assert(out@[before.len() + (i - a.len())] == out@[mid_len + i]);
                }
            }
        }
        k = k + 1;
    }
    proof {
        let pl = crate::domain::preorder_list(node@, node@.children.len() as nat);
        assert(crate::domain::preorder_v(node@) == seq![node@] + pl);
        assert forall|i: int| 0 <= i < crate::domain::preorder_v(node@).len() implies write_of(
            #[trigger] out@[start.len() + i],
            crate::domain::preorder_v(node@)[i],
        ) by {
            if i > 0 {
                assert(out@[start.len() + i] == out@[mid_len + (i - 1)]);
            }
        }
    }
}

/// `e` is the write event of the tree value `n`'s own fields.
pub open spec fn write_of(e: SyncEvent, n: FileNodeV) -> bool {
    e matches SyncEvent::Write { path, size, mtime, file_type } && path@ == n.path && size == n.size
        && mtime == n.modified && file_type == n.file_type
}

/// The result a syncer starts from before anything was published: an
/// empty synthetic root.
pub fn empty_result() -> (r: ScanResult)
    ensures
        r.root@ == empty_root(),
        r.root@.path.len() == 0,
        r.root@.children.len() == 0,
        r.root.size == 0,
        r.total_size == 0,
        r.file_count == 1,
        r.scan_duration_ms == 0,
        r.skipped@.len() == 0,
        r.tombstones@.len() == 0,
{
    let v: Vec<FileNode> = Vec::new();
    proof {
        assert(crate::domain::sizes_of(v@) =~= Seq::<nat>::empty());
        assert(crate::domain::counts_of(v@) =~= Seq::<nat>::empty());
    }
    let r = ScanResult::with_children(v, 0);
    assert(r.root@.path =~= Seq::<char>::empty());
    assert(r.root@.children =~= Seq::<FileNodeV>::empty());
    r
}

} // verus!
