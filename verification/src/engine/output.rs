//! Renderings of a whole [`FileTree`] under a [`FilterSet`]: indented
//! JSON, JSON Lines, a table sorted by size, and a tree with connectors.
//! Nodes failing the filters are left out with their subtrees.
use vstd::prelude::*;
use crate::engine::domain::filter::FilterSet;
use crate::engine::domain::node::{lemma_child_height, lemma_tsizes_fit, FileNode, NodeKind, TimePoint};
use crate::engine::domain::tree::FileTree;
use crate::engine::domain::filenode::esc;
use crate::engine::format::{pad_left, pad_right, spaces};
use crate::numfmt::{f64_value, f64_value_exec, one_decimal, push_one_decimal, unit_index, unit_index_exec};
use crate::sorting::{key_views, sort_by_keys, stably_sorted, KeyV, SortKey};
use crate::text::{dec, digit_char, push_char, push_dec};

verus! {

/// Output format.
#[derive(Debug, Clone, Copy, PartialEq, Eq, Structural)]
pub enum OutputFormat {
    Json,
    Jsonl,
    Table,
    Tree,
}

/// The lower-case name of a format.
pub open spec fn format_name(f: OutputFormat) -> Seq<char> {
    match f {
        OutputFormat::Json => "json"@,
        OutputFormat::Jsonl => "jsonl"@,
        OutputFormat::Table => "table"@,
        OutputFormat::Tree => "tree"@,
    }
}

/// The label of a node kind.
pub open spec fn kind_label(k: NodeKind) -> Seq<char> {
    match k {
        NodeKind::File => "file"@,
        NodeKind::Directory => "dir"@,
        NodeKind::Symlink => "link"@,
    }
}

fn kind_label_str(k: &NodeKind) -> (r: &'static str)
    ensures
        r@ == kind_label(*k),
{
    match k {
        NodeKind::File => "file",
        NodeKind::Directory => "dir",
        NodeKind::Symlink => "link",
    }
}

/// The binary unit for `k` divisions by 1024.
pub open spec fn iec(k: nat) -> Seq<char> {
    crate::domain::iec_unit(k)
}

/// A byte count as a 64-bit float divided by 1024 while at least 1024 (up
/// to PiB), with one decimal and its binary unit.
pub open spec fn human_size_text(bytes: nat) -> Seq<char> {
    let r = f64_value(bytes);
    let k = unit_index(r, 0, 5);
    one_decimal(r, k) + " "@ + iec(k)
}

/// Renders a byte count, e.g. `1536` as `1.5 KiB`.
pub fn human_size(bytes: u64) -> (s: String)
    ensures
        s@ == human_size_text(bytes as nat),
{
    let r = f64_value_exec(bytes);
    let k = unit_index_exec(r, 5);
    let mut s = String::new();
    push_one_decimal(&mut s, r, k);
    s.append(" ");
    s.append(crate::domain::iec_unit_str(k));
    s
}

// ── dates ────────────────────────────────────────────────────────────────

/// The civil date (year, month, day) of a count of days since the Unix
/// epoch, by the era-based conversion of the proleptic Gregorian
/// calendar (eras of 400 years starting on March 1).
pub open spec fn civil(days: int) -> (int, int, int) {
    let z = days + 719468;
    let era = z / 146097;
    let doe = z - era * 146097;
    let yoe = (doe - doe / 1460 + doe / 36524 - doe / 146096) / 365;
    let y = yoe + era * 400;
    let doy = doe - (365 * yoe + yoe / 4 - yoe / 100);
    let mp = (5 * doy + 2) / 153;
    let d = doy - (153 * mp + 2) / 5 + 1;
    let m = if mp < 10 {
        mp + 3
    } else {
        mp - 9
    };
    (if m <= 2 {
        y + 1
    } else {
        y
    }, m, d)
}

/// Converts a count of days since the Unix epoch to (year, month, day).
pub fn civil_from_days(days: i64) -> (r: (i64, u32, u32))
    requires
        -1000000000000000000 <= days <= 1000000000000000000,
    ensures
        (r.0 as int, r.1 as int, r.2 as int) == civil(days as int),
        1 <= r.1 <= 12,
        1 <= r.2 <= 31,
{
    let z = days + 719468;
    let era: i64 = if z >= 0 {
        z / 146097
    } else {
        -((-z + 146096) / 146097)
    };
    proof {
        if z < 0 {
            assert(era == z / 146097) by (nonlinear_arith)
                requires
                    z < 0,
                    era == -((-z + 146096) / 146097),
            ;
        }
        assert(0 <= z - era * 146097 < 146097) by (nonlinear_arith)
            requires
                era == z / 146097,
        ;
    }
    let doe = (z - era * 146097) as u32;
    proof {
        assert(doe / 1460 <= doe && doe / 36524 <= doe / 1460 && doe / 146096 <= 1) by (nonlinear_arith)
            requires
                doe < 146097,
        ;
    }
    let yoe = (doe - doe / 1460 + doe / 36524 - doe / 146096) / 365;
    proof {
        assert(yoe <= 400 && 365 * yoe + yoe / 4 - yoe / 100 <= doe) by (nonlinear_arith)
            requires
                doe < 146097,
                yoe == (doe - doe / 1460 + doe / 36524 - doe / 146096) / 365,
        ;
    }
    let y = yoe as i64 + era * 400;
    let doy = doe - (365 * yoe + yoe / 4 - yoe / 100);
    proof {
        assert(doy < 366) by (nonlinear_arith)
            requires
                doe < 146097,
                yoe == (doe - doe / 1460 + doe / 36524 - doe / 146096) / 365,
                doy == doe - (365 * yoe + yoe / 4 - yoe / 100),
        ;
    }
    let mp = (5 * doy + 2) / 153;
    proof {
        assert(mp <= 11 && (153 * mp + 2) / 5 <= doy) by (nonlinear_arith)
            requires
                doy < 366,
                mp == (5 * doy + 2) / 153,
        ;
    }
    let d = doy - (153 * mp + 2) / 5 + 1;
    proof {
        assert(d <= 31) by (nonlinear_arith)
            requires
                mp == (5 * doy + 2) / 153,
                (153 * mp + 2) / 5 <= doy,
                d == doy - (153 * mp + 2) / 5 + 1,
        ;
    }
    let m = if mp < 10 {
        mp + 3
    } else {
        mp - 9
    };
    let y2 = if m <= 2 {
        y + 1
    } else {
        y
    };
    (y2, m, d)
}

/// Whether `y` is a leap year of the Gregorian calendar.
pub open spec fn is_leap_year(y: int) -> bool {
    y % 4 == 0 && (y % 100 != 0 || y % 400 == 0)
}

/// The number of leap years among the years 1 to `y` (for `y >= 0`).
pub open spec fn leap_years_through(y: int) -> int {
    y / 4 - y / 100 + y / 400
}

/// The number of days of month `m` of year `y`.
pub open spec fn days_in_month(y: int, m: int) -> int {
    if m == 2 {
        if is_leap_year(y) {
            29
        } else {
            28
        }
    } else if m == 4 || m == 6 || m == 9 || m == 11 {
        30
    } else {
        31
    }
}

/// The number of days of year `y` before the first of month `m`.
pub open spec fn days_before_month(y: int, m: int) -> int {
    let leap_day: int = if m > 2 && is_leap_year(y) {
        1
    } else {
        0
    };
    leap_day + if m <= 1 {
        0int
    } else if m == 2 {
        31int
    } else if m == 3 {
        59int
    } else if m == 4 {
        90int
    } else if m == 5 {
        120int
    } else if m == 6 {
        151int
    } else if m == 7 {
        181int
    } else if m == 8 {
        212int
    } else if m == 9 {
        243int
    } else if m == 10 {
        273int
    } else if m == 11 {
        304int
    } else {
        334int
    }
}

/// The number of days from 1970-01-01 to the date `y`-`m`-`d`: whole
/// years of 365 days, one more for each leap year passed, the months of
/// the year before `m`, and the days of month `m` before `d`.
pub open spec fn day_number(y: int, m: int, d: int) -> int {
    365 * (y - 1970) + (leap_years_through(y - 1) - leap_years_through(1969)) + days_before_month(y, m) + (d - 1)
}

/// A year counts as a leap year exactly when it adds one to the count of
/// leap years.
pub proof fn lemma_leap_year_step(y: int)
    ensures
        leap_years_through(y) - leap_years_through(y - 1) == if is_leap_year(y) {
            1int
        } else {
            0int
        },
{
}

/// The civil date of a day count is a valid date of the Gregorian
/// calendar (a month from 1 to 12, a day within that month's length,
/// February having 29 days in leap years only) that lies exactly that
/// many days after 1970-01-01.
pub proof fn law_civil_date_counts_days(days: int)
    ensures
        ({
            let (y, m, d) = civil(days);
            &&& 1 <= m <= 12
            &&& 1 <= d <= days_in_month(y, m)
            &&& day_number(y, m, d) == days
            &&& days >= 0 ==> y >= 0
        }),
{
    let z = days + 719468;
    let era = z / 146097;
    let doe = z - era * 146097;
    assert(0 <= doe < 146097);
    let f = doe - doe / 1460 + doe / 36524 - doe / 146096;
    let yoe = f / 365;
    assert(0 <= yoe < 400 && 365 * yoe + yoe / 4 - yoe / 100 <= doe) by (nonlinear_arith)
        requires
            0 <= doe < 146097,
            f == doe - doe / 1460 + doe / 36524 - doe / 146096,
            yoe == f / 365,
    ;
    let doy = doe - (365 * yoe + yoe / 4 - yoe / 100);
    assert(doy < 366) by (nonlinear_arith)
        requires
            0 <= doe < 146097,
            yoe == (doe - doe / 1460 + doe / 36524 - doe / 146096) / 365,
            doy == doe - (365 * yoe + yoe / 4 - yoe / 100),
    ;
    assert(doy == 365 ==> (yoe + 1) % 4 == 0 && ((yoe + 1) % 100 != 0 || yoe == 399)) by (nonlinear_arith)
        requires
            0 <= doe < 146097,
            0 <= yoe < 400,
            yoe == (doe - doe / 1460 + doe / 36524 - doe / 146096) / 365,
            doy == doe - (365 * yoe + yoe / 4 - yoe / 100),
    ;
    let y = yoe + era * 400;
    assert(days >= 0 ==> era >= 0);
    assert(y / 4 == era * 100 + yoe / 4 && y / 100 == era * 4 + yoe / 100 && y / 400 == era);
    let mp = (5 * doy + 2) / 153;
    let d = doy - (153 * mp + 2) / 5 + 1;
    let m = if mp < 10 {
        mp + 3
    } else {
        mp - 9
    };
    assert(civil(days) == (if m <= 2 { y + 1 } else { y }, m, d));
    lemma_leap_year_step(y);
    lemma_leap_year_step(y + 1);
    assert(0 <= mp <= 11);
    if mp == 0 {
    } else if mp == 1 {
    } else if mp == 2 {
    } else if mp == 3 {
    } else if mp == 4 {
    } else if mp == 5 {
    } else if mp == 6 {
    } else if mp == 7 {
    } else if mp == 8 {
    } else if mp == 9 {
    } else if mp == 10 {
    } else {
    }
}

/// `n` with at least `w` digits, zero-padded.
pub open spec fn zero_pad(n: nat, w: nat) -> Seq<char> {
    let t = dec(n);
    if t.len() < w {
        Seq::new((w - t.len()) as nat, |i: int| '0') + t
    } else {
        t
    }
}

pub(crate) fn push_zero_pad(s: &mut String, n: u64, w: usize)
    ensures
        final(s)@ == old(s)@ + zero_pad(n as nat, w as nat),
{
    let mut t = String::new();
    push_dec(&mut t, n as u128);
    let l = t.as_str().unicode_len();
    if l < w {
        let mut k: usize = 0;
        while k < w - l
            invariant
                l < w,
                k <= w - l,
                s@ == old(s)@ + Seq::new(k as nat, |i: int| '0'),
            decreases w - l - k,
        {
            push_char(s, '0');
            k = k + 1;
            assert(s@ =~= old(s)@ + Seq::new(k as nat, |i: int| '0'));
        }
    }
    s.append(t.as_str());
    assert(final(s)@ =~= old(s)@ + zero_pad(n as nat, w as nat));
}

/// A time as a UTC date and time `YYYY-MM-DD HH:MM:SS`, or `—` for the
/// epoch itself and times before it.
pub open spec fn timestamp_text(t: TimePoint) -> Seq<char> {
    let secs = t.epoch_secs();
    if secs == 0 {
        "—"@
    } else {
        let days = secs / 86400;
        let rem = secs % 86400;
        let c = civil(days as int);
        zero_pad(c.0 as nat, 4) + "-"@ + zero_pad(c.1 as nat, 2) + "-"@ + zero_pad(c.2 as nat, 2) + " "@
            + zero_pad((rem / 3600) as nat, 2) + ":"@ + zero_pad(((rem % 3600) / 60) as nat, 2) + ":"@
            + zero_pad((rem % 60) as nat, 2)
    }
}

proof fn lemma_two_digits(n: nat)
    requires
        n < 100,
    ensures
        zero_pad(n, 2) == seq![digit_char(n / 10), digit_char(n % 10)],
{
    if n < 10 {
        assert(dec(n) == seq![digit_char(n)]);
        assert(zero_pad(n, 2) =~= seq![digit_char(0), digit_char(n % 10)]);
    } else {
        assert(dec(n / 10) == seq![digit_char(n / 10)]);
        assert(dec(n) == dec(n / 10).push(digit_char(n % 10)));
        assert(dec(n) =~= seq![digit_char(n / 10), digit_char(n % 10)]);
    }
}

/// The time of day in a timestamp is the UTC time since midnight on a
/// 24-hour clock: the text ends in `HH:MM:SS`, with `HH` the whole hours
/// (0 to 23), `MM` the minutes and `SS` the seconds, two digits each.
pub proof fn law_timestamp_time_of_day(t: TimePoint)
    requires
        t.epoch_secs() > 0,
    ensures
        ({
            let x = timestamp_text(t);
            let n = x.len() as int;
            let rem = t.epoch_secs() % 86400;
            let h = (rem / 3600) as nat;
            let m = ((rem % 3600) / 60) as nat;
            let sec = (rem % 60) as nat;
            &&& h < 24 && m < 60 && sec < 60
            &&& n >= 8
            &&& x[n - 8] == digit_char(h / 10) && x[n - 7] == digit_char(h % 10) && x[n - 6] == ':'
            &&& x[n - 5] == digit_char(m / 10) && x[n - 4] == digit_char(m % 10) && x[n - 3] == ':'
            &&& x[n - 2] == digit_char(sec / 10) && x[n - 1] == digit_char(sec % 10)
        }),
{
    let secs = t.epoch_secs();
    let days = secs / 86400;
    let rem = secs % 86400;
    let c = civil(days as int);
    let h = (rem / 3600) as nat;
    let m = ((rem % 3600) / 60) as nat;
    let sec = (rem % 60) as nat;
    reveal_strlit(":");
    lemma_two_digits(h);
    lemma_two_digits(m);
    lemma_two_digits(sec);
    let head = zero_pad(c.0 as nat, 4) + "-"@ + zero_pad(c.1 as nat, 2) + "-"@ + zero_pad(c.2 as nat, 2) + " "@;
    let tail = zero_pad(h, 2) + ":"@ + zero_pad(m, 2) + ":"@ + zero_pad(sec, 2);
    assert(tail =~= seq![
        digit_char(h / 10), digit_char(h % 10), ':', digit_char(m / 10), digit_char(m % 10), ':',
        digit_char(sec / 10), digit_char(sec % 10)
    ]);
    assert(timestamp_text(t) =~= head + tail);
    let x = head + tail;
    let n = x.len() as int;
    assert(x[n - 8] == tail[0] && x[n - 7] == tail[1] && x[n - 6] == tail[2] && x[n - 5] == tail[3]);
    assert(x[n - 4] == tail[4] && x[n - 3] == tail[5] && x[n - 2] == tail[6] && x[n - 1] == tail[7]);
}

/// The text of a time after the epoch starts with its UTC date,
/// `YYYY-MM-DD` and a space: a valid date of the Gregorian calendar that
/// lies as many days after 1970-01-01 as whole days have passed.
pub proof fn law_timestamp_date(t: TimePoint)
    requires
        t.epoch_secs() > 0,
    ensures
        exists|y: int, m: int, d: int|
            0 <= y && 1 <= m <= 12 && 1 <= d <= days_in_month(y, m) && #[trigger] day_number(y, m, d) == t.epoch_secs()
                / 86400 && timestamp_text(t).take(zero_pad(y as nat, 4).len() as int + 7) == zero_pad(y as nat, 4) + "-"@
                + zero_pad(m as nat, 2) + "-"@ + zero_pad(d as nat, 2) + " "@,
{
    let secs = t.epoch_secs();
    let days = secs / 86400;
    let rem = secs % 86400;
    let c = civil(days as int);
    law_civil_date_counts_days(days as int);
    reveal_strlit("-");
    reveal_strlit(" ");
    lemma_two_digits(c.1 as nat);
    lemma_two_digits(c.2 as nat);
    let head = zero_pad(c.0 as nat, 4) + "-"@ + zero_pad(c.1 as nat, 2) + "-"@ + zero_pad(c.2 as nat, 2) + " "@;
    let tail = zero_pad((rem / 3600) as nat, 2) + ":"@ + zero_pad(((rem % 3600) / 60) as nat, 2) + ":"@
        + zero_pad((rem % 60) as nat, 2);
    assert(timestamp_text(t) =~= head + tail);
    assert(head.len() == zero_pad(c.0 as nat, 4).len() + 7);
    assert((head + tail).take(head.len() as int) =~= head);
    assert(day_number(c.0, c.1, c.2) == days);
}

/// A time as a UTC date and time, or `—` when it is not after the epoch.
pub fn format_timestamp(t: &TimePoint) -> (r: String)
    ensures
        r@ == timestamp_text(*t),
{
    let secs = t.unix_secs();
    if secs == 0 {
        return String::from_str("—");
    }
    let days = secs / 86400;
    let rem = secs % 86400;
    let c = civil_from_days(days as i64);
    proof {
        assert(c.0 >= 1970) by (nonlinear_arith)
            requires
                days >= 0,
                (c.0 as int, c.1 as int, c.2 as int) == civil(days as int),
        ;
    }
    let mut s = String::new();
    push_zero_pad(&mut s, c.0 as u64, 4);
    s.append("-");
    push_zero_pad(&mut s, c.1 as u64, 2);
    s.append("-");
    push_zero_pad(&mut s, c.2 as u64, 2);
    s.append(" ");
    push_zero_pad(&mut s, rem / 3600, 2);
    s.append(":");
    push_zero_pad(&mut s, (rem % 3600) / 60, 2);
    s.append(":");
    push_zero_pad(&mut s, rem % 60, 2);
    assert(s@ =~= timestamp_text(*t));
    s
}

// ── selection ────────────────────────────────────────────────────────────

/// The children of the first `k` children of `n` that pass the filters
/// at `depth + 1`, in order.
pub open spec fn kept_k(n: FileNode, fs: FilterSet, depth: int, k: nat) -> Seq<FileNode>
    decreases k,
{
    if k == 0 || k > n.children@.len() {
        Seq::empty()
    } else {
        let rest = kept_k(n, fs, depth, (k - 1) as nat);
        let c = n.children@[k - 1];
        if fs.all_hold(c, (depth + 1) as usize) {
            rest.push(c)
        } else {
            rest
        }
    }
}

/// The children of `n` that pass the filters at `depth + 1`.
pub open spec fn kept(n: FileNode, fs: FilterSet, depth: int) -> Seq<FileNode> {
    kept_k(n, fs, depth, n.children@.len() as nat)
}

proof fn lemma_kept_members(n: FileNode, fs: FilterSet, depth: int, k: nat)
    requires
        k <= n.children@.len(),
    ensures
        forall|q: int|
            0 <= q < kept_k(n, fs, depth, k).len() ==> exists|j: int|
                0 <= j < n.children@.len() && #[trigger] kept_k(n, fs, depth, k)[q] == n.children@[j],
    decreases k,
{
    if k > 0 {
        lemma_kept_members(n, fs, depth, (k - 1) as nat);
        let rest = kept_k(n, fs, depth, (k - 1) as nat);
        assert forall|q: int| 0 <= q < kept_k(n, fs, depth, k).len() implies exists|j: int|
            0 <= j < n.children@.len() && #[trigger] kept_k(n, fs, depth, k)[q] == n.children@[j] by {
            if q < rest.len() {
                let j = choose|j: int| 0 <= j < n.children@.len() && rest[q] == n.children@[j];
                assert(kept_k(n, fs, depth, k)[q] == n.children@[j]);
            } else {
                assert(kept_k(n, fs, depth, k)[q] == n.children@[k - 1]);
            }
        }
    }
}

/// The kept children of a node, with what the renderers need of them.
fn kept_children<'a>(n: &'a FileNode, fs: &FilterSet, depth: usize) -> (r: Vec<&'a FileNode>)
    requires
        n.tsizes_fit(),
        depth < usize::MAX,
    ensures
        derefs(r@) == kept(*n, *fs, depth as int),
        forall|q: int| 0 <= q < r@.len() ==> exists|j: int| 0 <= j < n.children@.len() && *#[trigger] r@[q] == n.children@[j],
{
    let mut out: Vec<&FileNode> = Vec::new();
    let mut k: usize = 0;
    while k < n.children.len()
        invariant
            k <= n.children@.len(),
            n.tsizes_fit(),
            depth < usize::MAX,
            derefs(out@) == kept_k(*n, *fs, depth as int, k as nat),
        decreases n.children@.len() - k,
    {
        let c = &n.children[k];
        assert(c.tsizes_fit());
        if fs.apply(c, depth + 1) {
            out.push(c);
            assert(derefs(out@) =~= kept_k(*n, *fs, depth as int, (k + 1) as nat));
        }
        k = k + 1;
    }
    proof {
        lemma_kept_members(*n, *fs, depth as int, n.children@.len() as nat);
        assert forall|q: int| 0 <= q < out@.len() implies exists|j: int| 0 <= j < n.children@.len() && *#[trigger] out@[q] == n.children@[j] by {
            assert(derefs(out@)[q] == *out@[q]);
        }
    }
    out
}

/// The dereferenced entries of a sequence of references.
pub open spec fn derefs(v: Seq<&FileNode>) -> Seq<FileNode> {
    v.map_values(|r: &FileNode| *r)
}

// ── tree ─────────────────────────────────────────────────────────────────

/// A node's line in the tree: connector, name and total size.
pub open spec fn tree_line(n: FileNode, prefix: Seq<char>, is_last: bool) -> Seq<char> {
    prefix + (if is_last {
        "└── "@
    } else {
        "├── "@
    }) + n.name@ + "  ["@ + human_size_text(n.tsize()) + "]\n"@
}

/// The lines of the subtree at `n` (at `depth`, drawn after `prefix`),
/// then its kept children. Nodes must be lower than `h`.
pub open spec fn tree_child(n: FileNode, prefix: Seq<char>, is_last: bool, fs: FilterSet, depth: int, h: nat) -> Seq<char>
    decreases h, 0nat, 0nat,
{
    if n.height() >= h {
        Seq::empty()
    } else {
        let cp = prefix + if is_last {
            "    "@
        } else {
            "│   "@
        };
        tree_line(n, prefix, is_last) + tree_kids(kept(n, fs, depth), cp, fs, depth + 1, n.height(), 0)
    }
}

/// The lines of `ks[i..]` at `depth`, the last one closing its level.
pub open spec fn tree_kids(ks: Seq<FileNode>, prefix: Seq<char>, fs: FilterSet, depth: int, h: nat, i: nat) -> Seq<char>
    decreases h, 1nat, ks.len() - i,
{
    if i >= ks.len() {
        Seq::empty()
    } else {
        tree_child(ks[i as int], prefix, i + 1 == ks.len(), fs, depth, h) + tree_kids(ks, prefix, fs, depth, h, i + 1)
    }
}

/// The tree rendering: the root's name and total size, then its kept
/// children.
pub open spec fn tree_text(t: FileTree, fs: FilterSet) -> Seq<char> {
    t.root.name@ + "  ["@ + human_size_text(t.root.tsize()) + "]\n"@ + tree_kids(
        kept(t.root, fs, 0),
        Seq::empty(),
        fs,
        1,
        t.root.height(),
        0,
    )
}

fn render_tree_child(node: &FileNode, prefix: &str, is_last: bool, out: &mut String, fs: &FilterSet, depth: usize, Ghost(h): Ghost<nat>)
    requires
        node.tsizes_fit(),
        node.height() < h,
        depth + node.height() < usize::MAX,
    ensures
        final(out)@ == old(out)@ + tree_child(*node, prefix@, is_last, *fs, depth as int, h),
    decreases node.height(),
{
    let ghost start = out@;
    let mut line = String::from_str(prefix);
    if is_last {
        line.append("└── ");
    } else {
        line.append("├── ");
    }
    line.append(node.name.as_str());
    line.append("  [");
    let hs = human_size(node.total_size());
    line.append(hs.as_str());
    line.append("]\n");
    assert(line@ =~= tree_line(*node, prefix@, is_last));
    out.append(line.as_str());
    let mut cp = String::from_str(prefix);
    if is_last {
        cp.append("    ");
    } else {
        cp.append("│   ");
    }
    let ks = kept_children(node, fs, depth);
    let ghost kv = derefs(ks@);
    let ghost mid = out@;
    let mut i: usize = 0;
    while i < ks.len()
        invariant
            i <= ks@.len(),
            kv == derefs(ks@),
            kv == kept(*node, *fs, depth as int),
            forall|q: int| 0 <= q < ks@.len() ==> exists|j: int| 0 <= j < node.children@.len() && *#[trigger] ks@[q] == node.children@[j],
            node.tsizes_fit(),
            depth + node.height() < usize::MAX,
            out@ + tree_kids(kv, cp@, *fs, depth + 1, node.height(), i as nat) == mid + tree_kids(kv, cp@, *fs, depth + 1, node.height(), 0),
        decreases ks@.len() - i,
    {
        let c = ks[i];
        proof {
            let j = choose|j: int| 0 <= j < node.children@.len() && *ks@[i as int] == node.children@[j];
            lemma_child_height(*node, j);
            assert(kv[i as int] == *c);
        }
        let ghost before = out@;
        render_tree_child(c, cp.as_str(), i + 1 == ks.len(), out, fs, depth + 1, Ghost(node.height()));
        proof {
            vstd::seq_lib::lemma_concat_associative(
                before,
                tree_child(*c, cp@, i + 1 == ks@.len(), *fs, depth + 1, node.height()),
                tree_kids(kv, cp@, *fs, depth + 1, node.height(), (i + 1) as nat),
            );
        }
        i = i + 1;
    }
    assert(tree_kids(kv, cp@, *fs, depth + 1, node.height(), i as nat) =~= Seq::<char>::empty());
    assert(out@ =~= start + tree_child(*node, prefix@, is_last, *fs, depth as int, h));
}

fn format_tree(tree: &FileTree, fs: &FilterSet) -> (r: String)
    requires
        tree.root.tsizes_fit(),
        tree.root.height() + 2 < usize::MAX,
    ensures
        r@ == tree_text(*tree, *fs),
{
    let mut out = String::new();
    out.append(tree.root.name.as_str());
    out.append("  [");
    let hs = human_size(tree.root.total_size());
    out.append(hs.as_str());
    out.append("]\n");
    let ghost head = out@;
    let ks = kept_children(&tree.root, fs, 0);
    let ghost kv = derefs(ks@);
    let ghost h = tree.root.height();
    let mut i: usize = 0;
    proof {
        reveal_strlit("");
    }
    while i < ks.len()
        invariant
            i <= ks@.len(),
            kv == derefs(ks@),
            kv == kept(tree.root, *fs, 0),
            h == tree.root.height(),
            forall|q: int| 0 <= q < ks@.len() ==> exists|j: int| 0 <= j < tree.root.children@.len() && *#[trigger] ks@[q] == tree.root.children@[j],
            tree.root.tsizes_fit(),
            tree.root.height() + 2 < usize::MAX,
            out@ + tree_kids(kv, Seq::empty(), *fs, 1, h, i as nat) == head + tree_kids(kv, Seq::empty(), *fs, 1, h, 0),
        decreases ks@.len() - i,
    {
        let c = ks[i];
        proof {
            reveal_strlit("");
            let j = choose|j: int| 0 <= j < tree.root.children@.len() && *ks@[i as int] == tree.root.children@[j];
            lemma_child_height(tree.root, j);
            assert(kv[i as int] == *c);
        }
        let ghost before = out@;
        render_tree_child(c, "", i + 1 == ks.len(), &mut out, fs, 1, Ghost(h));
        proof {
            vstd::seq_lib::lemma_concat_associative(
                before,
                tree_child(*c, Seq::empty(), i + 1 == ks@.len(), *fs, 1, h),
                tree_kids(kv, Seq::empty(), *fs, 1, h, (i + 1) as nat),
            );
        }
        i = i + 1;
    }
    assert(tree_kids(kv, Seq::empty(), *fs, 1, h, i as nat) =~= Seq::<char>::empty());
    assert(out@ =~= tree_text(*tree, *fs));
    out
}

// ── JSON ─────────────────────────────────────────────────────────────────

/// `pad"key": "value",` and a newline, the value escaped.
pub open spec fn jstr_line(pad: Seq<char>, key: Seq<char>, val: Seq<char>) -> Seq<char> {
    pad + "\""@ + key + "\": \""@ + esc(val) + "\",\n"@
}

/// `pad"key": digits,` and a newline.
pub open spec fn jnum_line(pad: Seq<char>, key: Seq<char>, val: nat) -> Seq<char> {
    pad + "\""@ + key + "\": "@ + dec(val) + ",\n"@
}

/// The opening of a node's indented object, up to its children array.
pub open spec fn json_head(n: FileNode, indent: nat) -> Seq<char> {
    let pad1 = spaces(2 * (indent + 1));
    "{\n"@ + jstr_line(pad1, "name"@, n.name@) + jstr_line(pad1, "path"@, n.path@) + jnum_line(
        pad1,
        "size"@,
        n.size as nat,
    ) + jnum_line(pad1, "total_size"@, n.tsize()) + (pad1 + "\"kind\": \""@ + kind_label(n.kind)
        + "\",\n"@) + jnum_line(pad1, "modified"@, n.modified.epoch_secs() as nat) + (pad1
        + "\"children\": ["@)
}

/// The indented object of the subtree at `n`, its kept children nested.
/// Nodes must be lower than `h`.
pub open spec fn json_obj(n: FileNode, indent: nat, fs: FilterSet, depth: int, h: nat) -> Seq<char>
    decreases h, 0nat, 0nat,
{
    if n.height() >= h {
        Seq::empty()
    } else {
        let ks = kept(n, fs, depth);
        json_head(n, indent) + (if ks.len() == 0 {
            "]"@
        } else {
            "\n"@ + json_items(ks, indent + 2, fs, depth + 1, n.height(), 0) + spaces(2 * (indent + 1))
                + "]"@
        }) + "\n"@ + spaces(2 * indent) + "}"@
    }
}

/// The objects of `ks[i..]`, one per line, comma-separated.
pub open spec fn json_items(ks: Seq<FileNode>, indent: nat, fs: FilterSet, depth: int, h: nat, i: nat) -> Seq<char>
    decreases h, 1nat, ks.len() - i,
{
    if i >= ks.len() {
        Seq::empty()
    } else {
        spaces(2 * indent) + json_obj(ks[i as int], indent, fs, depth, h) + (if i + 1 < ks.len() {
            ","@
        } else {
            Seq::empty()
        }) + "\n"@ + json_items(ks, indent, fs, depth, h, i + 1)
    }
}

/// The JSON document: the tree's totals, then the root object.
pub open spec fn json_text(t: FileTree, fs: FilterSet) -> Seq<char> {
    "{\n"@ + ("  \"total_size\": "@ + dec(t.total_size as nat) + ",\n"@) + ("  \"file_count\": "@ + dec(
        t.file_count as nat,
    ) + ",\n"@) + ("  \"dir_count\": "@ + dec(t.dir_count as nat) + ",\n"@) + "  \"root\": "@ + json_obj(
        t.root,
        2,
        fs,
        0,
        t.root.height() + 1,
    ) + "\n}\n"@
}

fn push_spaces(s: &mut String, k: usize)
    ensures
        final(s)@ == old(s)@ + spaces(k as nat),
{
    let mut i: usize = 0;
    while i < k
        invariant
            i <= k,
            s@ == old(s)@ + spaces(i as nat),
        decreases k - i,
    {
        push_char(s, ' ');
        i = i + 1;
        assert(s@ =~= old(s)@ + spaces(i as nat));
    }
}

fn push_jstr_line(s: &mut String, pad: usize, key: &str, val: &str)
    ensures
        final(s)@ == old(s)@ + jstr_line(spaces(pad as nat), key@, val@),
{
    let mut t = String::new();
    push_spaces(&mut t, pad);
    t.append("\"");
    t.append(key);
    t.append("\": \"");
    crate::engine::domain::filenode::push_escaped(&mut t, val);
    t.append("\",\n");
    assert(t@ =~= jstr_line(spaces(pad as nat), key@, val@));
    s.append(t.as_str());
}

fn push_jnum_line(s: &mut String, pad: usize, key: &str, val: u64)
    ensures
        final(s)@ == old(s)@ + jnum_line(spaces(pad as nat), key@, val as nat),
{
    let mut t = String::new();
    push_spaces(&mut t, pad);
    t.append("\"");
    t.append(key);
    t.append("\": ");
    push_dec(&mut t, val as u128);
    t.append(",\n");
    assert(t@ =~= jnum_line(spaces(pad as nat), key@, val as nat));
    s.append(t.as_str());
}

fn json_head_string(n: &FileNode, indent: usize) -> (r: String)
    requires
        n.tsizes_fit(),
        2 * (indent + 1) <= usize::MAX,
    ensures
        r@ == json_head(*n, indent as nat),
{
    let p1 = 2 * (indent + 1);
    let mut hd = String::from_str("{\n");
    push_jstr_line(&mut hd, p1, "name", n.name.as_str());
    push_jstr_line(&mut hd, p1, "path", n.path.as_str());
    push_jnum_line(&mut hd, p1, "size", n.size);
    push_jnum_line(&mut hd, p1, "total_size", n.total_size());
    let mut kind = String::new();
    push_spaces(&mut kind, p1);
    kind.append("\"kind\": \"");
    kind.append(kind_label_str(&n.kind));
    kind.append("\",\n");
    hd.append(kind.as_str());
    push_jnum_line(&mut hd, p1, "modified", n.modified.unix_secs());
    let mut ch = String::new();
    push_spaces(&mut ch, p1);
    ch.append("\"children\": [");
    hd.append(ch.as_str());
    hd
}

fn json_item(c: &FileNode, indent: usize, fs: &FilterSet, depth: usize, Ghost(h): Ghost<nat>, comma: bool) -> (r: String)
    requires
        c.tsizes_fit(),
        c.height() < h,
        depth + c.height() < usize::MAX,
        2 * indent + 4 * c.height() + 4 <= usize::MAX,
    ensures
        r@ == spaces(2 * indent as nat) + json_obj(*c, indent as nat, *fs, depth as int, h) + (if comma {
            ","@
        } else {
            Seq::<char>::empty()
        }) + "\n"@,
    decreases c.height(), 2nat,
{
    let mut item = String::new();
    push_spaces(&mut item, 2 * indent);
    let body = json_body(c, indent, fs, depth, Ghost(h));
    item.append(body.as_str());
    if comma {
        item.append(",");
    } else {
        assert(item@ =~= item@ + Seq::<char>::empty());
    }
    item.append("\n");
    item
}

fn json_body(node: &FileNode, indent: usize, fs: &FilterSet, depth: usize, Ghost(h): Ghost<nat>) -> (r: String)
    requires
        node.tsizes_fit(),
        node.height() < h,
        depth + node.height() < usize::MAX,
        2 * indent + 4 * node.height() + 4 <= usize::MAX,
    ensures
        r@ == json_obj(*node, indent as nat, *fs, depth as int, h),
    decreases node.height(), 1nat,
{
    let ks = kept_children(node, fs, depth);
    let ghost kv = derefs(ks@);
    let ghost hn = node.height();
    let mut kp = String::new();
    if ks.len() == 0 {
        kp.append("]");
    } else {
        let mut items = String::new();
        let mut i: usize = 0;
        while i < ks.len()
            invariant
                i <= ks@.len(),
                kv == derefs(ks@),
                kv == kept(*node, *fs, depth as int),
                hn == node.height(),
                forall|q: int| 0 <= q < ks@.len() ==> exists|j: int| 0 <= j < node.children@.len() && *#[trigger] ks@[q] == node.children@[j],
                node.tsizes_fit(),
                depth + node.height() < usize::MAX,
                2 * indent + 4 * node.height() + 4 <= usize::MAX,
                items@ + json_items(kv, (indent + 2) as nat, *fs, depth + 1, hn, i as nat) == json_items(kv, (indent + 2) as nat, *fs, depth + 1, hn, 0),
            decreases ks@.len() - i,
        {
            let c = ks[i];
            proof {
                let j = choose|j: int| 0 <= j < node.children@.len() && *ks@[i as int] == node.children@[j];
                lemma_child_height(*node, j);
                assert(kv[i as int] == *c);
            }
            let ghost before = items@;
            let item = json_item(c, indent + 2, fs, depth + 1, Ghost(hn), i + 1 < ks.len());
            items.append(item.as_str());
            proof {
                vstd::seq_lib::lemma_concat_associative(
                    before,
                    item@,
                    json_items(kv, (indent + 2) as nat, *fs, depth + 1, hn, (i + 1) as nat),
                );
            }
            i = i + 1;
        }
        assert(json_items(kv, (indent + 2) as nat, *fs, depth + 1, hn, i as nat) =~= Seq::<char>::empty());
        assert(items@ =~= json_items(kv, (indent + 2) as nat, *fs, depth + 1, hn, 0));
        kp.append("\n");
        kp.append(items.as_str());
        push_spaces(&mut kp, 2 * (indent + 1));
        kp.append("]");
    }
    let mut r = json_head_string(node, indent);
    r.append(kp.as_str());
    r.append("\n");
    push_spaces(&mut r, 2 * indent);
    r.append("}");
    r
}

fn format_json(tree: &FileTree, fs: &FilterSet) -> (r: String)
    requires
        tree.root.tsizes_fit(),
        4 * tree.root.height() + 8 <= usize::MAX,
    ensures
        r@ == json_text(*tree, *fs),
{
    let mut out = String::from_str("{\n");
    let mut a = String::from_str("  \"total_size\": ");
    push_dec(&mut a, tree.total_size as u128);
    a.append(",\n");
    out.append(a.as_str());
    let mut b = String::from_str("  \"file_count\": ");
    push_dec(&mut b, tree.file_count as u128);
    b.append(",\n");
    out.append(b.as_str());
    let mut c = String::from_str("  \"dir_count\": ");
    push_dec(&mut c, tree.dir_count as u128);
    c.append(",\n");
    out.append(c.as_str());
    out.append("  \"root\": ");
    let body = json_body(&tree.root, 2, fs, 0, Ghost(tree.root.height() + 1));
    out.append(body.as_str());
    out.append("\n}\n");
    out
}

// ── JSON Lines ───────────────────────────────────────────────────────────

/// One node's JSON line, with its depth.
pub open spec fn jsonl_line(n: FileNode, depth: int) -> Seq<char> {
    "{"@ + ("\"name\":\""@ + esc(n.name@) + "\","@) + ("\"path\":\""@ + esc(n.path@) + "\","@) + (
    "\"size\":"@ + dec(n.size as nat) + ","@) + ("\"total_size\":"@ + dec(n.tsize()) + ","@) + (
    "\"kind\":\""@ + kind_label(n.kind) + "\","@) + ("\"modified\":"@ + dec(
        n.modified.epoch_secs() as nat,
    ) + ","@) + ("\"depth\":"@ + dec(depth as nat)) + "}"@ + "\n"@
}

/// The lines of the subtree at `n` at `depth`: none when `n` fails the
/// filters, else its line then those of each child. Nodes must be lower
/// than `h`.
pub open spec fn jsonl_of(n: FileNode, fs: FilterSet, depth: int, h: nat) -> Seq<char>
    decreases h, 0nat, 0nat,
{
    if n.height() >= h || !fs.all_hold(n, depth as usize) {
        Seq::empty()
    } else {
        jsonl_line(n, depth) + jsonl_kids(n, fs, depth + 1, n.height(), 0)
    }
}

/// The lines of the children of `n` from the `i`-th on.
pub open spec fn jsonl_kids(n: FileNode, fs: FilterSet, depth: int, h: nat, i: nat) -> Seq<char>
    decreases h, 1nat, n.children@.len() - i,
{
    if i >= n.children@.len() {
        Seq::empty()
    } else {
        jsonl_of(n.children@[i as int], fs, depth, h) + jsonl_kids(n, fs, depth, h, i + 1)
    }
}

fn jsonl_line_string(n: &FileNode, depth: usize) -> (r: String)
    requires
        n.tsizes_fit(),
    ensures
        r@ == jsonl_line(*n, depth as int),
{
    let mut t = String::from_str("{");
    let mut a = String::from_str("\"name\":\"");
    crate::engine::domain::filenode::push_escaped(&mut a, n.name.as_str());
    a.append("\",");
    t.append(a.as_str());
    let mut b = String::from_str("\"path\":\"");
    crate::engine::domain::filenode::push_escaped(&mut b, n.path.as_str());
    b.append("\",");
    t.append(b.as_str());
    let mut c = String::from_str("\"size\":");
    push_dec(&mut c, n.size as u128);
    c.append(",");
    t.append(c.as_str());
    let mut d = String::from_str("\"total_size\":");
    push_dec(&mut d, n.total_size() as u128);
    d.append(",");
    t.append(d.as_str());
    let mut e = String::from_str("\"kind\":\"");
    e.append(kind_label_str(&n.kind));
    e.append("\",");
    t.append(e.as_str());
    let mut f = String::from_str("\"modified\":");
    push_dec(&mut f, n.modified.unix_secs() as u128);
    f.append(",");
    t.append(f.as_str());
    let mut g = String::from_str("\"depth\":");
    push_dec(&mut g, depth as u128);
    t.append(g.as_str());
    t.append("}");
    t.append("\n");
    t
}

fn jsonl_node(node: &FileNode, out: &mut String, fs: &FilterSet, depth: usize, Ghost(h): Ghost<nat>)
    requires
        node.tsizes_fit(),
        node.height() < h,
        depth + node.height() < usize::MAX,
    ensures
        final(out)@ == old(out)@ + jsonl_of(*node, *fs, depth as int, h),
    decreases node.height(),
{
    if !fs.apply(node, depth) {
        assert(jsonl_of(*node, *fs, depth as int, h) =~= Seq::<char>::empty());
        assert(out@ =~= old(out)@ + Seq::<char>::empty());
        return ;
    }
    let ghost start = out@;
    let line = jsonl_line_string(node, depth);
    out.append(line.as_str());
    let ghost mid = out@;
    let ghost hn = node.height();
    let mut i: usize = 0;
    while i < node.children.len()
        invariant
            i <= node.children@.len(),
            hn == node.height(),
            node.tsizes_fit(),
            depth + node.height() < usize::MAX,
            out@ + jsonl_kids(*node, *fs, depth + 1, hn, i as nat) == mid + jsonl_kids(*node, *fs, depth + 1, hn, 0),
        decreases node.children@.len() - i,
    {
        let c = &node.children[i];
        proof {
            lemma_child_height(*node, i as int);
        }
        let ghost before = out@;
        jsonl_node(c, out, fs, depth + 1, Ghost(hn));
        proof {
            vstd::seq_lib::lemma_concat_associative(
                before,
                jsonl_of(*c, *fs, depth + 1, hn),
                jsonl_kids(*node, *fs, depth + 1, hn, (i + 1) as nat),
            );
        }
        i = i + 1;
    }
    assert(jsonl_kids(*node, *fs, depth + 1, hn, i as nat) =~= Seq::<char>::empty());
    assert(out@ =~= start + jsonl_of(*node, *fs, depth as int, h));
}

// ── table ────────────────────────────────────────────────────────────────

/// A table row: indented name, total size, time text, kind label.
pub type RowV = (Seq<char>, nat, Seq<char>, Seq<char>);

/// The rows of the subtree at `n` (name indented by `indent` levels):
/// none when `n` fails the filters at `depth`, else its row then those of
/// each child, depth first.
pub open spec fn rows_of(n: FileNode, fs: FilterSet, indent: nat, depth: int, h: nat) -> Seq<RowV>
    decreases h, 0nat, 0nat,
{
    if n.height() >= h || !fs.all_hold(n, depth as usize) {
        Seq::empty()
    } else {
        seq![(spaces(2 * indent) + n.name@, n.tsize(), timestamp_text(n.modified), kind_label(n.kind))]
            + rows_kids(n, fs, indent + 1, depth + 1, n.height(), 0)
    }
}

/// The rows of the children of `n` from the `i`-th on.
pub open spec fn rows_kids(n: FileNode, fs: FilterSet, indent: nat, depth: int, h: nat, i: nat) -> Seq<RowV>
    decreases h, 1nat, n.children@.len() - i,
{
    if i >= n.children@.len() {
        Seq::empty()
    } else {
        rows_of(n.children@[i as int], fs, indent, depth, h) + rows_kids(n, fs, indent, depth, h, i + 1)
    }
}

/// The table header.
pub open spec fn table_header() -> Seq<char> {
    "Name                                                       Size             Modified Type    "@
}

/// The rule under the header.
pub open spec fn table_rule() -> Seq<char> {
    "---------------------------------------------------------------------------------------------"@
}

/// One table line.
pub open spec fn row_line(r: RowV) -> Seq<char> {
    pad_right(r.0, 50) + " "@ + pad_left(human_size_text(r.1), 12) + " "@ + pad_left(r.2, 20) + " "@
        + pad_right(r.3, 8) + "\n"@
}

/// The lines of rows.
pub open spec fn row_lines(rs: Seq<RowV>) -> Seq<char>
    decreases rs.len(),
{
    if rs.len() == 0 {
        Seq::empty()
    } else {
        row_lines(rs.drop_last()) + row_line(rs.last())
    }
}

/// The size keys of rows.
pub open spec fn row_keys(rs: Seq<RowV>) -> Seq<KeyV> {
    rs.map_values(|r: RowV| KeyV::Num(r.1))
}

/// The table of rows in the given order.
pub open spec fn table_doc(rs: Seq<RowV>) -> Seq<char> {
    table_header() + "\n"@ + table_rule() + "\n"@ + row_lines(rs)
}

/// The value of an exec row.
pub open spec fn row_v(r: (String, u64, String, &'static str)) -> RowV {
    (r.0@, r.1 as nat, r.2@, r.3@)
}

fn collect_table_rows(
    node: &FileNode,
    indent: usize,
    out: &mut Vec<(String, u64, String, &'static str)>,
    fs: &FilterSet,
    depth: usize,
    Ghost(h): Ghost<nat>,
)
    requires
        node.tsizes_fit(),
        node.height() < h,
        depth + node.height() < usize::MAX,
        2 * indent + 2 * node.height() <= usize::MAX,
    ensures
        final(out)@.map_values(|r: (String, u64, String, &'static str)| row_v(r)) == old(out)@.map_values(
            |r: (String, u64, String, &'static str)| row_v(r),
        ) + rows_of(*node, *fs, indent as nat, depth as int, h),
    decreases node.height(),
{
    let ghost start = old(out)@.map_values(|r: (String, u64, String, &'static str)| row_v(r));
    if !fs.apply(node, depth) {
        assert(out@.map_values(|r: (String, u64, String, &'static str)| row_v(r)) =~= start + rows_of(*node, *fs, indent as nat, depth as int, h));
        return ;
    }
    let mut name = String::new();
    push_spaces(&mut name, 2 * indent);
    name.append(node.name.as_str());
    let modified = format_timestamp(&node.modified);
    let typ = kind_label_str(&node.kind);
    let ghost before = out@;
    out.push((name, node.total_size(), modified, typ));
    let ghost mid = out@.map_values(|r: (String, u64, String, &'static str)| row_v(r));
    assert(mid =~= start + seq![(spaces(2 * indent as nat) + node.name@, node.tsize(), timestamp_text(node.modified), kind_label(node.kind))]) by {
        assert(out@ =~= before.push(out@.last()));
    }
    let ghost hn = node.height();
    let mut i: usize = 0;
    while i < node.children.len()
        invariant
            i <= node.children@.len(),
            hn == node.height(),
            node.tsizes_fit(),
            depth + node.height() < usize::MAX,
            2 * indent + 2 * node.height() <= usize::MAX,
            out@.map_values(|r: (String, u64, String, &'static str)| row_v(r)) + rows_kids(*node, *fs, (indent + 1) as nat, depth + 1, hn, i as nat) == mid + rows_kids(*node, *fs, (indent + 1) as nat, depth + 1, hn, 0),
        decreases node.children@.len() - i,
    {
        let c = &node.children[i];
        proof {
            lemma_child_height(*node, i as int);
        }
        let ghost b = out@.map_values(|r: (String, u64, String, &'static str)| row_v(r));
        collect_table_rows(c, indent + 1, out, fs, depth + 1, Ghost(hn));
        proof {
            vstd::seq_lib::lemma_concat_associative(
                b,
                rows_of(*c, *fs, (indent + 1) as nat, depth + 1, hn),
                rows_kids(*node, *fs, (indent + 1) as nat, depth + 1, hn, (i + 1) as nat),
            );
        }
        i = i + 1;
    }
    assert(rows_kids(*node, *fs, (indent + 1) as nat, depth + 1, hn, i as nat) =~= Seq::<RowV>::empty());
    proof {
        vstd::seq_lib::lemma_concat_associative(
            start,
            seq![(spaces(2 * indent as nat) + node.name@, node.tsize(), timestamp_text(node.modified), kind_label(node.kind))],
            rows_kids(*node, *fs, (indent + 1) as nat, depth + 1, hn, 0),
        );
    }
}

fn push_row_line(out: &mut String, row: &(String, u64, String, &'static str))
    ensures
        final(out)@ == old(out)@ + row_line(row_v(*row)),
{
    let mut t = String::new();
    push_pad_right(&mut t, row.0.as_str(), 50);
    t.append(" ");
    let hs = human_size(row.1);
    push_pad_left(&mut t, hs.as_str(), 12);
    t.append(" ");
    push_pad_left(&mut t, row.2.as_str(), 20);
    t.append(" ");
    push_pad_right(&mut t, row.3, 8);
    t.append("\n");
    assert(t@ =~= row_line(row_v(*row)));
    out.append(t.as_str());
}

fn push_pad_left(s: &mut String, t: &str, w: usize)
    ensures
        final(s)@ == old(s)@ + pad_left(t@, w as nat),
{
    let l = t.unicode_len();
    if l < w {
        push_spaces(s, w - l);
    }
    s.append(t);
    assert(final(s)@ =~= old(s)@ + pad_left(t@, w as nat));
}

fn push_pad_right(s: &mut String, t: &str, w: usize)
    ensures
        final(s)@ == old(s)@ + pad_right(t@, w as nat),
{
    let l = t.unicode_len();
    s.append(t);
    if l < w {
        push_spaces(s, w - l);
    }
    assert(final(s)@ =~= old(s)@ + pad_right(t@, w as nat));
}

fn format_table(tree: &FileTree, fs: &FilterSet) -> (r: String)
    requires
        tree.root.tsizes_fit(),
        4 * tree.root.height() + 8 <= usize::MAX,
    ensures
        exists|sorted: Seq<RowV>|
            stably_sorted(
                rows_of(tree.root, *fs, 0, 0, tree.root.height() + 1),
                row_keys(rows_of(tree.root, *fs, 0, 0, tree.root.height() + 1)),
                true,
                sorted,
            ) && r@ == table_doc(sorted),
{
    let mut rows: Vec<(String, u64, String, &'static str)> = Vec::new();
    collect_table_rows(&tree.root, 0, &mut rows, fs, 0, Ghost(tree.root.height() + 1));
    let ghost rv = rows@.map_values(|r: (String, u64, String, &'static str)| row_v(r));
    assert(rv =~= rows_of(tree.root, *fs, 0, 0, tree.root.height() + 1));
    let mut keys: Vec<SortKey> = Vec::new();
    let mut i: usize = 0;
    while i < rows.len()
        invariant
            i <= rows@.len(),
            keys@.len() == i,
            forall|j: int| 0 <= j < i ==> (#[trigger] keys@[j]).key_view() == KeyV::Num(rows@[j].1 as nat),
        decreases rows@.len() - i,
    {
        keys.push(SortKey::Num(rows[i].1));
        i = i + 1;
    }
    assert(key_views(keys@) =~= row_keys(rv));
    let ghost orig = rows@;
    let (sorted, Ghost(p)) = sort_by_keys(rows, keys, true);
    let ghost sv = sorted@.map_values(|r: (String, u64, String, &'static str)| row_v(r));
    proof {
        assert(crate::sorting::reorders(rv, sv, p)) by {
            assert forall|k: int| 0 <= k < sv.len() implies #[trigger] sv[k] == rv[p[k]] by {
                assert(sorted@[k] == orig[p[k]]);
            }
        }
        assert(stably_sorted(rv, row_keys(rv), true, sv));
    }
    let mut out = String::from_str("Name                                                       Size             Modified Type    ");
    out.append("\n");
    out.append("---------------------------------------------------------------------------------------------");
    out.append("\n");
    let ghost head = out@;
    let mut k: usize = 0;
    while k < sorted.len()
        invariant
            k <= sorted@.len(),
            sv == sorted@.map_values(|r: (String, u64, String, &'static str)| row_v(r)),
            out@ == head + row_lines(sv.take(k as int)),
        decreases sorted@.len() - k,
    {
        let ghost before = out@;
        push_row_line(&mut out, &sorted[k]);
        assert(sv.take(k + 1).drop_last() =~= sv.take(k as int));
        proof {
            vstd::seq_lib::lemma_concat_associative(head, row_lines(sv.take(k as int)), row_line(sv[k as int]));
        }
        k = k + 1;
    }
    assert(sv.take(k as int) =~= sv);
    assert(out@ == table_doc(sv));
    assert(stably_sorted(
        rows_of(tree.root, *fs, 0, 0, tree.root.height() + 1),
        row_keys(rows_of(tree.root, *fs, 0, 0, tree.root.height() + 1)),
        true,
        sv,
    ));
    out
}

// ── entry points ─────────────────────────────────────────────────────────

impl OutputFormat {
    /// The format's lower-case name.
    pub fn to_string(&self) -> (r: String)
        ensures
            r@ == format_name(*self),
    {
        match self {
            OutputFormat::Json => String::from_str("json"),
            OutputFormat::Jsonl => String::from_str("jsonl"),
            OutputFormat::Table => String::from_str("table"),
            OutputFormat::Tree => String::from_str("tree"),
        }
    }

    /// The tree rendered in this format, nodes failing `filters` left out
    /// with their subtrees: indented JSON with the totals, one JSON line
    /// per node, a table sorted by size (largest first, ties in tree
    /// order), or a tree with connectors. Never fails.
    pub fn format(&self, tree: &FileTree, filters: &FilterSet) -> (r: Result<String, std::io::Error>)
        requires
            tree.root.tsize() <= u64::MAX,
            4 * tree.root.height() + 8 <= usize::MAX,
        ensures
            r is Ok,
            *self == OutputFormat::Json ==> r->Ok_0@ == json_text(*tree, *filters),
            *self == OutputFormat::Jsonl ==> r->Ok_0@ == jsonl_of(tree.root, *filters, 0, tree.root.height() + 1),
            *self == OutputFormat::Tree ==> r->Ok_0@ == tree_text(*tree, *filters),
            *self == OutputFormat::Table ==> exists|sorted: Seq<RowV>|
                stably_sorted(
                    rows_of(tree.root, *filters, 0, 0, tree.root.height() + 1),
                    row_keys(rows_of(tree.root, *filters, 0, 0, tree.root.height() + 1)),
                    true,
                    sorted,
                ) && r->Ok_0@ == table_doc(sorted),
    {
        proof {
            lemma_tsizes_fit(tree.root);
        }
        match self {
            OutputFormat::Json => Ok(format_json(tree, filters)),
            OutputFormat::Jsonl => {
                let mut out = String::new();
                jsonl_node(&tree.root, &mut out, filters, 0, Ghost(tree.root.height() + 1));
                assert(out@ =~= jsonl_of(tree.root, *filters, 0, tree.root.height() + 1));
                Ok(out)
            },
            OutputFormat::Table => Ok(format_table(tree, filters)),
            OutputFormat::Tree => Ok(format_tree(tree, filters)),
        }
    }
}

} // verus!
