//! Duplicate-file detection over an already-scanned tree.
//!
//! The search runs in passes: the leaf files of at least a minimum size
//! are grouped by size; within each group of two or more, the files are
//! grouped by the digest of their leading bytes, and buckets of two or
//! more become candidates (up to a cap on the number of buckets); the
//! candidates are finally grouped by the digest of their whole content,
//! and every group of two or more is a duplicate group. Files that could
//! not be read are left out of the pass that needed them.
//!
//! Reading files is the caller's part: [`DupeSearch`] says which group to
//! read next and takes what was read.
use vstd::prelude::*;
use sha2::Digest;
use crate::domain::{FileNode, FileNodeV};
use crate::domain::dupes::{DuplicateGroup, DuplicateReport};
use crate::grouping::{
    distinct_keys, group_text, group_u64, groups_of, int_groups, ints, lemma_groups_total,
    lemma_positions_hold, lemma_total_len_prefix, positions_of, texts, total_len,
};
use crate::sorting::{key_views, reorders, sort_by_keys, stably_sorted, stable_by_keys, KeyV, SortKey};
use crate::text::{dec, dec_string, digit_char, digit_char_exec, push_char};

verus! {

/// Number of leading bytes digested in the first content pass (64 KiB).
pub const PARTIAL_HASH_BYTES: usize = 65536;

/// Default minimum file size to consider (1 MiB).
pub const DEFAULT_MIN_SIZE: u64 = 1048576;

/// A file taking part in the search: its path and size.
#[derive(Debug)]
pub struct DupeFile {
    pub path: String,
    pub size: u64,
}

/// The value of a [`DupeFile`]: path and size.
pub type DupeFileV = (Seq<char>, u64);

impl DupeFile {
    /// The value of this file.
    pub open spec fn fv(&self) -> DupeFileV {
        (self.path@, self.size)
    }

    /// A copy of this file.
    pub fn copy(&self) -> (r: DupeFile)
        ensures
            r.fv() == self.fv(),
    {
        DupeFile { path: self.path.clone(), size: self.size }
    }
}

/// The values of files.
pub open spec fn files_v(v: Seq<DupeFile>) -> Seq<DupeFileV> {
    v.map_values(|f: DupeFile| f.fv())
}

/// The values of groups of files.
pub open spec fn groups_v(v: Seq<Vec<DupeFile>>) -> Seq<Seq<DupeFileV>> {
    v.map_values(|g: Vec<DupeFile>| files_v(g@))
}

/// The leaf files (entries without children) of the tree at `n` whose
/// size is at least `min_size`, in depth-first order.
pub open spec fn leaves(n: FileNodeV, min_size: u64) -> Seq<DupeFileV>
    decreases n, 1nat, 0nat,
{
    if n.children.len() == 0 {
        if n.size >= min_size {
            seq![(n.path, n.size)]
        } else {
            Seq::empty()
        }
    } else {
        leaves_list(n, min_size, n.children.len() as nat)
    }
}

/// The qualifying leaves under the first `k` children of `n`.
pub open spec fn leaves_list(n: FileNodeV, min_size: u64, k: nat) -> Seq<DupeFileV>
    decreases n, 0nat, k,
{
    if k == 0 || k > n.children.len() {
        Seq::empty()
    } else {
        leaves_list(n, min_size, (k - 1) as nat) + leaves(n.children[k - 1], min_size)
    }
}

fn collect_leaves(node: &FileNode, min_size: u64, out: &mut Vec<DupeFile>)
    ensures
        files_v(final(out)@) == files_v(old(out)@) + leaves(node@, min_size),
    decreases node,
{
    let ghost start = files_v(out@);
    if node.children.len() == 0 {
        if node.size >= min_size {
            out.push(DupeFile { path: node.path.clone(), size: node.size });
        }
        assert(files_v(out@) =~= start + leaves(node@, min_size));
    } else {
        let mut k: usize = 0;
        while k < node.children.len()
            invariant
                k <= node.children@.len(),
                node@.children.len() == node.children@.len(),
                files_v(out@) == start + leaves_list(node@, min_size, k as nat),
            decreases node.children@.len() - k,
        {
            assert(node@.children[k as int] == node.children@[k as int]@);
            collect_leaves(&node.children[k], min_size, out);
            k = k + 1;
            assert(files_v(out@) =~= start + leaves_list(node@, min_size, k as nat));
        }
    }
}

/// The SHA-256 digest of a byte sequence.
pub uninterp spec fn sha256(bytes: Seq<u8>) -> Seq<u8>;

/// Digests `bytes` with `sha2::Sha256::digest`. The contract names the
/// result and states its length, 32 bytes, which the digest type fixes.
#[verifier::external_body]
fn sha256_bytes(bytes: &[u8]) -> (d: Vec<u8>)
    ensures
        d@ == sha256(bytes@),
        d@.len() == 32,
{
    sha2::Sha256::digest(bytes).to_vec()
}

/// The lower-case hexadecimal digit of `d` (below 16).
pub open spec fn hex_digit(d: u8) -> char {
    if d < 10 {
        digit_char(d as nat)
    } else if d == 10 {
        'a'
    } else if d == 11 {
        'b'
    } else if d == 12 {
        'c'
    } else if d == 13 {
        'd'
    } else if d == 14 {
        'e'
    } else {
        'f'
    }
}

/// Bytes as lower-case hexadecimal, two digits per byte.
pub open spec fn hex(bytes: Seq<u8>) -> Seq<char>
    decreases bytes.len(),
{
    if bytes.len() == 0 {
        Seq::empty()
    } else {
        hex(bytes.drop_last()) + seq![
            hex_digit(bytes.last() / 16),
            hex_digit(bytes.last() % 16),
        ]
    }
}

fn hex_digit_exec(d: u8) -> (c: char)
    requires
        d < 16,
    ensures
        c == hex_digit(d),
{
    if d < 10 {
        digit_char_exec(d as u64)
    } else if d == 10 {
        'a'
    } else if d == 11 {
        'b'
    } else if d == 12 {
        'c'
    } else if d == 13 {
        'd'
    } else if d == 14 {
        'e'
    } else {
        'f'
    }
}

/// Encodes bytes as lower-case hexadecimal.
pub fn hex_encode(bytes: &[u8]) -> (s: String)
    ensures
        s@ == hex(bytes@),
{
    let mut s = String::new();
    let mut i: usize = 0;
    while i < bytes.len()
        invariant
            i <= bytes@.len(),
            s@ == hex(bytes@.take(i as int)),
        decreases bytes@.len() - i,
    {
        let b = bytes[i];
        push_char(&mut s, hex_digit_exec(b / 16));
        push_char(&mut s, hex_digit_exec(b % 16));
        assert(bytes@.take(i + 1).drop_last() =~= bytes@.take(i as int));
        i = i + 1;
    }
    assert(bytes@.take(bytes@.len() as int) =~= bytes@);
    s
}

/// The SHA-256 digest of `bytes` in lower-case hexadecimal.
pub fn digest_hex(bytes: &[u8]) -> (s: String)
    ensures
        s@ == hex(sha256(bytes@)),
{
    let d = sha256_bytes(bytes);
    hex_encode(d.as_slice())
}

/// The key of a file in the first content pass: its size, a colon and
/// the digest of its leading bytes.
pub open spec fn partial_key(size: u64, prefix: Seq<u8>) -> Seq<char> {
    dec(size as nat) + seq![':'] + hex(sha256(prefix))
}

fn partial_key_exec(size: u64, prefix: &Vec<u8>) -> (s: String)
    ensures
        s@ == partial_key(size, prefix@),
{
    let mut s = dec_string(size);
    push_char(&mut s, ':');
    let h = digest_hex(prefix.as_slice());
    s.append(h.as_str());
    s
}

/// The key of a file in the last content pass: the digest of its content.
pub open spec fn full_key(content: Seq<u8>) -> Seq<char> {
    hex(sha256(content))
}

/// What a read gave: the bytes, or nothing where the file could not be read.
pub open spec fn reads_v(v: Seq<Option<Vec<u8>>>) -> Seq<Option<Seq<u8>>> {
    v.map_values(
        |o: Option<Vec<u8>>|
            match o {
                Some(b) => Some(b@),
                None => None,
            },
    )
}

/// The files that could be read, each with what was read, in order.
pub open spec fn readable(files: Seq<DupeFileV>, reads: Seq<Option<Seq<u8>>>) -> Seq<(DupeFileV, Seq<u8>)>
    decreases files.len(),
{
    if files.len() == 0 || reads.len() == 0 {
        Seq::empty()
    } else {
        let rest = readable(files.drop_last(), reads.drop_last());
        match reads.last() {
            Some(b) => rest.push((files.last(), b)),
            None => rest,
        }
    }
}

/// The files of `items` at the positions `g`.
pub open spec fn pick(items: Seq<DupeFileV>, g: Seq<int>) -> Seq<DupeFileV> {
    g.map_values(|j: int| items[j])
}

/// The files of `items` grouped by `keys` (the key of `items[i]` is
/// `keys[i]`), groups in order of first appearance.
pub open spec fn buckets<K>(items: Seq<DupeFileV>, keys: Seq<K>) -> Seq<Seq<DupeFileV>> {
    groups_of(keys).map_values(|g: Seq<int>| pick(items, g))
}

/// The files of a read pass.
pub open spec fn read_files(p: Seq<(DupeFileV, Seq<u8>)>) -> Seq<DupeFileV> {
    p.map_values(|x: (DupeFileV, Seq<u8>)| x.0)
}

/// The first-pass keys of a read pass.
pub open spec fn partial_keys(p: Seq<(DupeFileV, Seq<u8>)>) -> Seq<Seq<char>> {
    p.map_values(|x: (DupeFileV, Seq<u8>)| partial_key(x.0.1, x.1))
}

/// The last-pass keys of a read pass.
pub open spec fn full_keys(p: Seq<(DupeFileV, Seq<u8>)>) -> Seq<Seq<char>> {
    p.map_values(|x: (DupeFileV, Seq<u8>)| full_key(x.1))
}

/// The first-pass buckets of a size group, given the leading bytes read
/// from each of its files.
pub open spec fn partial_buckets(files: Seq<DupeFileV>, prefixes: Seq<Option<Seq<u8>>>) -> Seq<
    Seq<DupeFileV>,
> {
    let p = readable(files, prefixes);
    buckets(read_files(p), partial_keys(p))
}

/// Collects the readable files and their keys.
fn read_pass(files: &Vec<DupeFile>, reads: &Vec<Option<Vec<u8>>>, full: bool) -> (r: (
    Vec<DupeFile>,
    Vec<String>,
))
    requires
        files@.len() == reads@.len(),
    ensures
        ({
            let p = readable(files_v(files@), reads_v(reads@));
            &&& files_v(r.0@) == read_files(p)
            &&& texts(r.1@) == if full {
                full_keys(p)
            } else {
                partial_keys(p)
            }
        }),
{
    let ghost fs = files_v(files@);
    let ghost rs = reads_v(reads@);
    let mut items: Vec<DupeFile> = Vec::new();
    let mut keys: Vec<String> = Vec::new();
    let mut i: usize = 0;
    while i < files.len()
        invariant
            i <= files@.len(),
            files@.len() == reads@.len(),
            fs == files_v(files@),
            rs == reads_v(reads@),
            files_v(items@) == read_files(readable(fs.take(i as int), rs.take(i as int))),
            texts(keys@) == if full {
                full_keys(readable(fs.take(i as int), rs.take(i as int)))
            } else {
                partial_keys(readable(fs.take(i as int), rs.take(i as int)))
            },
        decreases files@.len() - i,
    {
        let ghost before = readable(fs.take(i as int), rs.take(i as int));
        assert(fs.take(i + 1).drop_last() =~= fs.take(i as int));
        assert(rs.take(i + 1).drop_last() =~= rs.take(i as int));
        assert(fs.take(i + 1).last() == files@[i as int].fv());
        match &reads[i] {
            Some(b) => {
                assert(rs.take(i + 1).last() == Some(b@));
                let key = if full {
                    digest_hex(b.as_slice())
                } else {
                    partial_key_exec(files[i].size, b)
                };
                let ghost old_items = files_v(items@);
                let ghost old_keys = texts(keys@);
                let ghost x = (files@[i as int].fv(), b@);
                items.push(files[i].copy());
                keys.push(key);
                assert(readable(fs.take(i + 1), rs.take(i + 1)) == before.push(x));
                assert(files_v(items@) =~= old_items.push(x.0));
                assert(texts(keys@) =~= old_keys.push(key@));
                assert(read_files(before.push(x)) =~= read_files(before).push(x.0));
                assert(full_keys(before.push(x)) =~= full_keys(before).push(full_key(x.1)));
                assert(partial_keys(before.push(x)) =~= partial_keys(before).push(partial_key(x.0.1, x.1)));
                assert(files_v(items@) =~= read_files(readable(fs.take(i + 1), rs.take(i + 1))));
                assert(texts(keys@) =~= if full {
                    full_keys(readable(fs.take(i + 1), rs.take(i + 1)))
                } else {
                    partial_keys(readable(fs.take(i + 1), rs.take(i + 1)))
                });
            },
            None => {
                assert(rs.take(i + 1).last() == None::<Seq<u8>>);
                assert(readable(fs.take(i + 1), rs.take(i + 1)) == before);
            },
        }
        i = i + 1;
    }
    assert(fs.take(files@.len() as int) =~= fs);
    assert(rs.take(files@.len() as int) =~= rs);
    (items, keys)
}

/// The files of `items` gathered group by group.
fn gather(items: &Vec<DupeFile>, gs: &Vec<Vec<usize>>) -> (r: Vec<Vec<DupeFile>>)
    requires
        forall|g: int, j: int|
            0 <= g < gs@.len() && 0 <= j < gs@[g]@.len() ==> (#[trigger] gs@[g]@[j]) < items@.len(),
    ensures
        groups_v(r@) == int_groups(gs@).map_values(|g: Seq<int>| pick(files_v(items@), g)),
{
    let ghost iv = files_v(items@);
    let mut out: Vec<Vec<DupeFile>> = Vec::new();
    let mut g: usize = 0;
    while g < gs.len()
        invariant
            g <= gs@.len(),
            iv == files_v(items@),
            forall|g: int, j: int|
                0 <= g < gs@.len() && 0 <= j < gs@[g]@.len() ==> (#[trigger] gs@[g]@[j])
                    < items@.len(),
            groups_v(out@) == int_groups(gs@).take(g as int).map_values(
                |h: Seq<int>| pick(iv, h),
            ),
        decreases gs@.len() - g,
    {
        let mut bucket: Vec<DupeFile> = Vec::new();
        let mut j: usize = 0;
        while j < gs[g].len()
            invariant
                g < gs@.len(),
                j <= gs@[g as int]@.len(),
                iv == files_v(items@),
                forall|j: int| 0 <= j < gs@[g as int]@.len() ==> (#[trigger] gs@[g as int]@[j]) < items@.len(),
                files_v(bucket@) == pick(iv, ints(gs@[g as int]@).take(j as int)),
            decreases gs@[g as int]@.len() - j,
        {
            let k = gs[g][j];
            assert(k < items@.len());
            let ghost prev = files_v(bucket@);
            bucket.push(items[k].copy());
            assert(files_v(bucket@) =~= prev.push(items@[k as int].fv()));
            proof {
                assert(ints(gs@[g as int]@)[j as int] == k as int);
                assert(iv[k as int] == items@[k as int].fv());
                let t = ints(gs@[g as int]@).take(j as int);
                assert(ints(gs@[g as int]@).take(j + 1) =~= t.push(k as int));
                assert(pick(iv, t.push(k as int)) =~= pick(iv, t).push(iv[k as int]));
            }
            j = j + 1;
            assert(files_v(bucket@) =~= pick(iv, ints(gs@[g as int]@).take(j as int)));
        }
        assert(ints(gs@[g as int]@).take(j as int) =~= ints(gs@[g as int]@));
        let ghost prev_out = groups_v(out@);
        out.push(bucket);
        assert(groups_v(out@) =~= prev_out.push(files_v(bucket@)));
        assert(int_groups(gs@)[g as int] == ints(gs@[g as int]@));
        assert(int_groups(gs@).take(g + 1) =~= int_groups(gs@).take(g as int).push(ints(gs@[g as int]@)));
        g = g + 1;
        assert(groups_v(out@) =~= int_groups(gs@).take(g as int).map_values(
            |h: Seq<int>| pick(iv, h),
        ));
    }
    assert(int_groups(gs@).take(gs@.len() as int) =~= int_groups(gs@));
    out
}

/// The size groups of the leaves of the tree at `root` of at least
/// `min_size` bytes.
pub open spec fn size_groups(root: FileNodeV, min_size: u64) -> Seq<Seq<DupeFileV>> {
    let l = leaves(root, min_size);
    buckets(l, l.map_values(|f: DupeFileV| f.1))
}

/// The index of the first group at or after `from` with at least two
/// files.
pub open spec fn first_pending(gs: Seq<Seq<DupeFileV>>, from: int) -> Option<int>
    decreases gs.len() - from,
{
    if from < 0 || from >= gs.len() {
        None
    } else if gs[from].len() >= 2 {
        Some(from)
    } else {
        first_pending(gs, from + 1)
    }
}

/// The buckets taken as candidates, in order, and the number of buckets
/// examined afterwards: buckets of one file are passed over; a bucket of
/// two or more is taken while fewer than `max` buckets have been
/// examined, and the first one met at the cap ends the pass.
pub open spec fn select_buckets(bs: Seq<Seq<DupeFileV>>, examined: nat, max: nat) -> (
    Seq<DupeFileV>,
    nat,
)
    decreases bs.len(),
{
    if bs.len() == 0 {
        (Seq::empty(), examined)
    } else if bs[0].len() < 2 {
        select_buckets(bs.drop_first(), examined, max)
    } else if examined >= max {
        (Seq::empty(), examined)
    } else {
        let rest = select_buckets(bs.drop_first(), examined + 1, max);
        (bs[0] + rest.0, rest.1)
    }
}

/// An index as an optional integer.
pub open spec fn opt_int(o: Option<usize>) -> Option<int> {
    match o {
        Some(i) => Some(i as int),
        None => None,
    }
}

/// The state of a duplicate search between reads.
#[derive(Debug)]
pub struct DupeSearch {
    /// The leaf files grouped by size, groups in order of first appearance.
    pub groups: Vec<Vec<DupeFile>>,
    /// The first group not yet read.
    pub next: usize,
    /// Candidate buckets taken so far.
    pub examined: usize,
    /// Cap on the number of candidate buckets.
    pub max_candidates: usize,
    /// The files whose whole content is to be compared.
    pub targets: Vec<DupeFile>,
}

impl DupeSearch {
    /// Starts a search over the leaves of `root` of at least `min_size`
    /// bytes, taking at most `max_candidates` candidate buckets.
    pub fn new(root: &FileNode, min_size: u64, max_candidates: usize) -> (r: DupeSearch)
        ensures
            groups_v(r.groups@) == size_groups(root@, min_size),
            r.next == 0,
            r.examined == 0,
            r.max_candidates == max_candidates,
            r.targets@.len() == 0,
    {
        let mut files: Vec<DupeFile> = Vec::new();
        collect_leaves(root, min_size, &mut files);
        assert(files_v(files@) =~= leaves(root@, min_size));
        let ghost l = files_v(files@);
        let mut sizes: Vec<u64> = Vec::new();
        let mut i: usize = 0;
        while i < files.len()
            invariant
                i <= files@.len(),
                l == files_v(files@),
                sizes@ == l.map_values(|f: DupeFileV| f.1).take(i as int),
            decreases files@.len() - i,
        {
            sizes.push(files[i].size);
            i = i + 1;
            assert(sizes@ =~= l.map_values(|f: DupeFileV| f.1).take(i as int));
        }
        assert(sizes@ =~= l.map_values(|f: DupeFileV| f.1));
        let gs = group_u64(&sizes);
        proof {
            assert forall|g: int, j: int|
                0 <= g < gs@.len() && 0 <= j < gs@[g]@.len() implies (#[trigger] gs@[g]@[j])
                < files@.len() by {
                assert(int_groups(gs@).len() == gs@.len());
                assert(groups_of(sizes@).len() == distinct_keys(sizes@).len());
                let k = distinct_keys(sizes@)[g];
                assert(groups_of(sizes@)[g] == positions_of(sizes@, k));
                assert(int_groups(gs@)[g] == ints(gs@[g]@));
                assert(ints(gs@[g]@)[j] == gs@[g]@[j] as int);
                lemma_positions_hold(sizes@, k);
            }
        }
        let groups = gather(&files, &gs);
        DupeSearch { groups, next: 0, examined: 0, max_candidates, targets: Vec::new() }
    }

    /// The size group whose leading bytes are to be read next: the first
    /// group of two or more files not yet read, while the cap on
    /// candidates is not reached. `None` ends the first content pass.
    pub fn pending(&self) -> (r: Option<usize>)
        ensures
            opt_int(r) == if self.examined >= self.max_candidates {
                None
            } else {
                first_pending(groups_v(self.groups@), self.next as int)
            },
            r matches Some(g) ==> self.next <= g < self.groups@.len(),
    {
        if self.examined >= self.max_candidates {
            return None;
        }
        let ghost gv = groups_v(self.groups@);
        let mut g: usize = self.next;
        assert(gv.len() == self.groups@.len());
        while g < self.groups.len()
            invariant
                self.next <= g,
                self.examined < self.max_candidates,
                gv.len() == self.groups@.len(),
                gv == groups_v(self.groups@),
                first_pending(gv, self.next as int) == first_pending(gv, g as int),
            decreases self.groups@.len() - g,
        {
            assert(gv[g as int].len() == self.groups@[g as int]@.len());
            if self.groups[g].len() >= 2 {
                assert(first_pending(gv, g as int) == Some(g as int));
                return Some(g);
            }
            g = g + 1;
        }
        assert(first_pending(gv, g as int) == None::<int>);
        None
    }

    /// Takes the leading bytes read from each file of group `g` (`None`
    /// where a file could not be read), and adds the files of the
    /// buckets it selects to the targets.
    pub fn record_partial(&mut self, g: usize, prefixes: &Vec<Option<Vec<u8>>>)
        requires
            g < old(self).groups@.len(),
            prefixes@.len() == old(self).groups@[g as int]@.len(),
        ensures
            final(self).groups == old(self).groups,
            final(self).next == g + 1,
            final(self).max_candidates == old(self).max_candidates,
            ({
                let s = select_buckets(
                    partial_buckets(files_v(old(self).groups@[g as int]@), reads_v(prefixes@)),
                    old(self).examined as nat,
                    old(self).max_candidates as nat,
                );
                &&& files_v(final(self).targets@) == files_v(old(self).targets@) + s.0
                &&& final(self).examined == s.1
            }),
    {
        let n = self.groups.len();
        let (items, keys) = read_pass(&self.groups[g], prefixes, false);
        let ghost p = readable(files_v(self.groups@[g as int]@), reads_v(prefixes@));
        let gs = group_text(&keys);
        proof {
            let ks = texts(keys@);
            assert forall|h: int, j: int|
                0 <= h < gs@.len() && 0 <= j < gs@[h]@.len() implies (#[trigger] gs@[h]@[j])
                < items@.len() by {
                assert(int_groups(gs@).len() == gs@.len());
                assert(groups_of(ks).len() == distinct_keys(ks).len());
                let k = distinct_keys(ks)[h];
                assert(groups_of(ks)[h] == positions_of(ks, k));
                assert(int_groups(gs@)[h] == ints(gs@[h]@));
                assert(ints(gs@[h]@)[j] == gs@[h]@[j] as int);
                lemma_positions_hold(ks, k);
                assert(ks.len() == read_files(p).len());
            }
        }
        let bs = gather(&items, &gs);
        let ghost bv = groups_v(bs@);
        assert(bv =~= partial_buckets(files_v(self.groups@[g as int]@), reads_v(prefixes@)));
        let ghost t0 = files_v(self.targets@);
        let ghost e0 = self.examined as nat;
        let ghost max = self.max_candidates as nat;
        let ghost goal = select_buckets(bv, e0, max);
        let ghost groups0 = self.groups;
        let mut j: usize = 0;
        let mut stop = false;
        assert(bv.skip(0) =~= bv);
        while j < bs.len() && !stop
            invariant
                j <= bs@.len(),
                bv == groups_v(bs@),
                max == self.max_candidates as nat,
                self.groups == groups0,
                stop ==> j < bs@.len() && bv[j as int].len() >= 2 && self.examined >= self.max_candidates,
                files_v(self.targets@) + select_buckets(bv.skip(j as int), self.examined as nat, max).0
                    == t0 + goal.0,
                select_buckets(bv.skip(j as int), self.examined as nat, max).1 == goal.1,
            decreases bs@.len() - j, if stop { 0int } else { 1int },
        {
            assert(bv.skip(j as int)[0] == bv[j as int]);
            assert(bv.skip(j as int).drop_first() =~= bv.skip(j + 1));
            assert(bv[j as int].len() == bs@[j as int]@.len());
            if bs[j].len() < 2 {
                j = j + 1;
            } else if self.examined >= self.max_candidates {
                stop = true;
            } else {
                self.examined = self.examined + 1;
                let ghost before = files_v(self.targets@);
                let ghost old_examined = self.examined;
                let mut k: usize = 0;
                while k < bs[j].len()
                    invariant
                        j < bs@.len(),
                        k <= bs@[j as int]@.len(),
                        bv == groups_v(bs@),
                        self.groups == groups0,
                        self.examined == old_examined,
                        self.max_candidates as nat == max,
                        files_v(self.targets@) == before + bv[j as int].take(k as int),
                    decreases bs@[j as int]@.len() - k,
                {
                    let ghost prev = files_v(self.targets@);
                    self.targets.push(bs[j][k].copy());
                    assert(files_v(self.targets@) =~= prev.push(bs@[j as int]@[k as int].fv()));
                    k = k + 1;
                    assert(bv[j as int].take(k as int) =~= bv[j as int].take(k - 1).push(
                        bs@[j as int]@[k - 1].fv(),
                    ));
                }
                assert(bv[j as int].take(k as int) =~= bv[j as int]);
                j = j + 1;
            }
        }
        if !stop {
            assert(bv.skip(j as int) =~= Seq::<Seq<DupeFileV>>::empty());
        }
        assert(g < n);
        self.next = g + 1;
    }

    /// Takes the content read from each target (`None` where a target
    /// could not be read) and reports the duplicate groups, largest
    /// recoverable size first.
    pub fn finish(&self, contents: &Vec<Option<Vec<u8>>>) -> (r: DuplicateReport)
        requires
            contents@.len() == self.targets@.len(),
            sizes_fit(files_v(self.targets@)),
        ensures
            ({
                let dg = duplicate_groups(files_v(self.targets@), reads_v(contents@));
                &&& stably_sorted(dg, rec_keys(dg), true, report_groups(r.groups@))
                &&& r.total_recoverable == sum_recoverable(dg)
                &&& r.total_duplicate_files == sum_extra(dg)
            }),
    {
        let tlen = self.targets.len();
        let (items, keys) = read_pass(&self.targets, contents, true);
        let ghost tv = files_v(self.targets@);
        let ghost p = readable(tv, reads_v(contents@));
        let ghost ks = texts(keys@);
        let ghost dk = distinct_keys(ks);
        let ghost b = tv.len() as int;
        let gs = group_text(&keys);
        proof {
            lemma_readable_sizes(tv, reads_v(contents@), b);
            lemma_groups_total(ks);
            assert(b == tlen);
            assert(ks.len() == p.len());
            assert(files_v(items@).len() == items@.len());
            assert(int_groups(gs@).len() == gs@.len());
            assert(groups_of(ks).len() == dk.len());
            assert forall|h: int, j: int|
                0 <= h < gs@.len() && 0 <= j < gs@[h]@.len() implies (#[trigger] gs@[h]@[j])
                < items@.len() by {
                let k = dk[h];
                assert(groups_of(ks)[h] == positions_of(ks, k));
                assert(int_groups(gs@)[h] == ints(gs@[h]@));
                assert(ints(gs@[h]@)[j] == gs@[h]@[j] as int);
                lemma_positions_hold(ks, k);
            }
        }
        let bs = gather(&items, &gs);
        let ghost bv = groups_v(bs@);
        let ghost ig = int_groups(gs@);
        assert(bv =~= buckets(read_files(p), ks));
        let mut groups: Vec<DuplicateGroup> = Vec::new();
        let mut rkeys: Vec<SortKey> = Vec::new();
        let mut total: u64 = 0;
        let mut extra: usize = 0;
        let ghost mut used: int = 0;
        let mut g: usize = 0;
        while g < bs.len()
            invariant
                g <= bs@.len(),
                bv == groups_v(bs@),
                bv == buckets(read_files(p), ks),
                ig == int_groups(gs@),
                ig == groups_of(ks),
                dk == distinct_keys(ks),
                ks == texts(keys@),
                bs@.len() == gs@.len(),
                gs@.len() == dk.len(),
                total_len(ig) == ks.len(),
                ks.len() == read_files(p).len(),
                read_files(p).len() <= b,
                b == tv.len(),
                b <= usize::MAX,
                forall|j: int| 0 <= j < read_files(p).len() ==> (#[trigger] read_files(p)[j]).1 * b <= u64::MAX,
                used == total_len(ig.take(g as int)),
                used <= total_len(ig),
                report_groups(groups@) == dup_groups(dk.take(g as int), bv.take(g as int)),
                key_views(rkeys@) == rec_keys(report_groups(groups@)),
                total == sum_recoverable(report_groups(groups@)),
                extra == sum_extra(report_groups(groups@)),
                total * b <= u64::MAX * used,
                extra <= used,
            decreases bs@.len() - g,
        {
            proof {
                lemma_total_len_prefix(ig, g as int);
                assert(dk.take(g + 1).drop_last() =~= dk.take(g as int));
                assert(bv.take(g + 1).drop_last() =~= bv.take(g as int));
                assert(ig[g as int] == positions_of(ks, dk[g as int]));
                assert(bv[g as int] == pick(read_files(p), ig[g as int]));
                assert(bv[g as int].len() == bs@[g as int]@.len());
            }
            let n = bs[g].len();
            if n >= 2 {
                let first = gs[g][0];
                proof {
                    lemma_positions_hold(ks, dk[g as int]);
                    assert(ints(gs@[g as int]@)[0] == first as int);
                    assert(ks[first as int] == dk[g as int]);
                    assert(bv[g as int][0] == read_files(p)[first as int]);
                    assert(bs@[g as int]@[0].fv() == bv[g as int][0]);
                }
                let hash = keys[first].clone();
                let size = bs[g][0].size;
                let mut files: Vec<String> = Vec::new();
                let mut j: usize = 0;
                while j < n
                    invariant
                        g < bs@.len(),
                        n == bs@[g as int]@.len(),
                        j <= n,
                        bv == groups_v(bs@),
                        texts(files@) == bv[g as int].map_values(|f: DupeFileV| f.0).take(j as int),
                    decreases n - j,
                {
                    let ghost prev = texts(files@);
                    assert(bv[g as int][j as int] == bs@[g as int]@[j as int].fv());
                    files.push(bs[g][j].path.clone());
                    assert(texts(files@) =~= prev.push(bs@[g as int]@[j as int].path@));
                    j = j + 1;
                    assert(texts(files@) =~= bv[g as int].map_values(|f: DupeFileV| f.0).take(j as int));
                }
                assert(texts(files@) =~= bv[g as int].map_values(|f: DupeFileV| f.0));
                let ghost m = (n - 1) as int;
                proof {
                    assert(size * b <= u64::MAX);
                    assert(used + n <= b) by {
                        assert(used + n == total_len(ig.take(g + 1)));
                    }
                    lemma_group_bound(total as int, size as int, m, used, b);
                }
                let group = DuplicateGroup { hash, size, files };
                let rec = group.recoverable_bytes();
                let ghost gv = group_view(group);
                let ghost prev = report_groups(groups@);
                total = total + rec;
                extra = extra + (n - 1);
                rkeys.push(SortKey::Num(rec));
                groups.push(group);
                proof {
                    assert(gv == (dk[g as int], bv[g as int][0].1, bv[g as int].map_values(|f: DupeFileV| f.0)));
                    assert(report_groups(groups@) =~= prev.push(gv));
                    assert(dup_groups(dk.take(g + 1), bv.take(g + 1)) == prev.push(gv));
                    assert(rec_keys(prev.push(gv)) =~= rec_keys(prev).push(KeyV::Num(recoverable(gv))));
                    assert(key_views(rkeys@) =~= rec_keys(report_groups(groups@)));
                    assert(report_groups(groups@).drop_last() =~= prev);
                    used = used + n;
                }
            } else {
                proof {
                    assert(dup_groups(dk.take(g + 1), bv.take(g + 1)) == dup_groups(dk.take(g as int), bv.take(g as int)));
                    used = used + n;
                    lemma_le_scale(total as int, b, used - n as int, used);
                }
            }
            g = g + 1;
        }
        assert(dk.take(g as int) =~= dk);
        assert(bv.take(g as int) =~= bv);
        let ghost dg = report_groups(groups@);
        let (sorted, Ghost(perm)) = sort_by_keys(groups, rkeys, true);
        proof {
            lemma_reorders_view(groups@, sorted@, perm);
        }
        DuplicateReport { groups: sorted, total_recoverable: total, total_duplicate_files: extra }
    }
}

/// A duplicate group as a value: digest, size, paths.
pub type GroupV = (Seq<char>, u64, Seq<Seq<char>>);

/// The value of a duplicate group.
pub open spec fn group_view(g: DuplicateGroup) -> GroupV {
    (g.hash@, g.size, texts(g.files@))
}

/// The values of duplicate groups.
pub open spec fn report_groups(v: Seq<DuplicateGroup>) -> Seq<GroupV> {
    v.map_values(|g: DuplicateGroup| group_view(g))
}

/// The buckets of two or more files with their keys, as groups: the key
/// as digest, the size of the first file, the paths.
pub open spec fn dup_groups(ks: Seq<Seq<char>>, bs: Seq<Seq<DupeFileV>>) -> Seq<GroupV>
    decreases bs.len(),
{
    if bs.len() == 0 || ks.len() == 0 {
        Seq::empty()
    } else {
        let rest = dup_groups(ks.drop_last(), bs.drop_last());
        if bs.last().len() >= 2 {
            rest.push((ks.last(), bs.last()[0].1, bs.last().map_values(|f: DupeFileV| f.0)))
        } else {
            rest
        }
    }
}

/// The duplicate groups among `targets`, given the content read from
/// each: the readable targets grouped by content digest, groups of two or
/// more, in order of first appearance.
pub open spec fn duplicate_groups(targets: Seq<DupeFileV>, contents: Seq<Option<Seq<u8>>>) -> Seq<
    GroupV,
> {
    let p = readable(targets, contents);
    let keys = full_keys(p);
    dup_groups(distinct_keys(keys), buckets(read_files(p), keys))
}

/// Bytes freed by keeping one file of a group.
pub open spec fn recoverable(g: GroupV) -> nat {
    (g.1 * (g.2.len() - 1)) as nat
}

/// The recoverable bytes of groups, as numeric sort keys.
pub open spec fn rec_keys(gs: Seq<GroupV>) -> Seq<KeyV> {
    gs.map_values(|g: GroupV| KeyV::Num(recoverable(g)))
}

/// The recoverable bytes of all groups.
pub open spec fn sum_recoverable(gs: Seq<GroupV>) -> nat
    decreases gs.len(),
{
    if gs.len() == 0 {
        0
    } else {
        sum_recoverable(gs.drop_last()) + recoverable(gs.last())
    }
}

/// The surplus copies of all groups.
pub open spec fn sum_extra(gs: Seq<GroupV>) -> nat
    decreases gs.len(),
{
    if gs.len() == 0 {
        0
    } else {
        sum_extra(gs.drop_last()) + (gs.last().2.len() - 1) as nat
    }
}

/// Every target's size times the number of targets fits in 64 bits, so
/// no total over them can overflow.
pub open spec fn sizes_fit(targets: Seq<DupeFileV>) -> bool {
    forall|i: int| 0 <= i < targets.len() ==> (#[trigger] targets[i]).1 * targets.len() <= u64::MAX
}

proof fn lemma_readable_sizes(files: Seq<DupeFileV>, reads: Seq<Option<Seq<u8>>>, b: int)
    requires
        forall|i: int| 0 <= i < files.len() ==> (#[trigger] files[i]).1 * b <= u64::MAX,
    ensures
        readable(files, reads).len() <= files.len(),
        forall|j: int|
            0 <= j < readable(files, reads).len() ==> (#[trigger] read_files(readable(files, reads))[j]).1 * b
                <= u64::MAX,
    decreases files.len(),
{
    if files.len() > 0 && reads.len() > 0 {
        let init = files.drop_last();
        assert forall|i: int| 0 <= i < init.len() implies (#[trigger] init[i]).1 * b <= u64::MAX by {
            assert(init[i] == files[i]);
        }
        lemma_readable_sizes(init, reads.drop_last(), b);
        let rest = readable(init, reads.drop_last());
        assert forall|j: int| 0 <= j < readable(files, reads).len() implies (#[trigger] read_files(
            readable(files, reads),
        )[j]).1 * b <= u64::MAX by {
            if j < rest.len() {
                assert(readable(files, reads)[j] == rest[j]);
                assert(read_files(rest)[j] == rest[j].0);
            } else {
                assert(files[files.len() - 1] == files.last());
            }
        }
    }
}

proof fn lemma_group_bound(total: int, size: int, m: int, used: int, b: int)
    requires
        0 <= total,
        0 <= size,
        1 <= m,
        0 <= used,
        size * b <= u64::MAX,
        total * b <= u64::MAX * used,
        used + m + 1 <= b,
    ensures
        size * m <= u64::MAX,
        total + size * m <= u64::MAX,
        (total + size * m) * b <= u64::MAX * (used + m + 1),
{
    let max = u64::MAX as int;
    assert(size * m * b <= max * m) by (nonlinear_arith)
        requires
            size * b <= max,
            1 <= m,
    {
        assert((size * b) * m <= max * m);
    }
    assert((total + size * m) * b == total * b + size * m * b) by (nonlinear_arith);
    assert((total + size * m) * b <= max * (used + m + 1)) by (nonlinear_arith)
        requires
            (total + size * m) * b == total * b + size * m * b,
            total * b <= max * used,
            size * m * b <= max * m,
            0 <= max,
    ;
    assert(total + size * m <= max) by (nonlinear_arith)
        requires
            (total + size * m) * b <= max * (used + m + 1),
            used + m + 1 <= b,
            0 <= max,
            0 < b,
    {
        assert(max * (used + m + 1) <= max * b);
    }
    assert(size * m <= max) by (nonlinear_arith)
        requires
            total + size * m <= max,
            0 <= total,
    ;
}

proof fn lemma_le_scale(x: int, b: int, u0: int, u1: int)
    requires
        x * b <= u64::MAX * u0,
        u0 <= u1,
    ensures
        x * b <= u64::MAX * u1,
{
    assert(u64::MAX * u0 <= u64::MAX * u1) by (nonlinear_arith)
        requires
            u0 <= u1,
    ;
}

proof fn lemma_reorders_view(old: Seq<DuplicateGroup>, new: Seq<DuplicateGroup>, p: Seq<int>)
    requires
        reorders(old, new, p),
    ensures
        reorders(report_groups(old), report_groups(new), p),
{
    assert forall|k: int| 0 <= k < new.len() implies #[trigger] report_groups(new)[k] == report_groups(
        old,
    )[p[k]] by {
        assert(new[k] == old[p[k]]);
    }
}

} // verus!
