//! Tree entries with name, path, size, modification time and directory
//! flag: filtering by criteria and depth, recursive sorting, and
//! rendering as JSON, JSON Lines, a table or an indented tree.
use vstd::prelude::*;
use crate::engine::domain::filter::{eq_ignore_ascii_case, lemma_lower_eq_iff};
use super::error::DomainError;
use super::format::OutputFormat;
use super::sort::SortKey;
use super::file_type::{after_last_dot, rfind_char, suffix_string};
use crate::sorting::{key_views, sort_by_keys, stably_sorted, KeyV, SortKey as Key};
use crate::sums::{lemma_sum_prefix_le, lemma_sum_take_all, lemma_sum_take_step, sum_nat};
use crate::text::{ascii_lower_seq, ascii_lowercase_chars, chars_equal, chars_of};

verus! {

/// A file, or a directory with children.
#[derive(Debug, PartialEq)]
pub struct FileNode {
    /// Full path, as text.
    pub path: String,
    /// Name, without the directory part.
    pub name: String,
    /// Own size in bytes.
    pub size: u64,
    /// Modification time, Unix seconds.
    pub mtime: u64,
    pub children: Vec<FileNode>,
    pub is_dir: bool,
}

/// The value of a [`FileNode`].
pub struct NodeV {
    pub path: Seq<char>,
    pub name: Seq<char>,
    pub size: u64,
    pub mtime: u64,
    pub children: Seq<NodeV>,
    pub is_dir: bool,
}

impl FileNode {
    /// The value of this tree.
    pub open spec fn v(self) -> NodeV
        decreases self,
    {
        NodeV {
            path: self.path@,
            name: self.name@,
            size: self.size,
            mtime: self.mtime,
            children: Seq::new(
                self.children@.len(),
                |i: int|
                    if 0 <= i < self.children@.len() {
                        self.children@[i].v()
                    } else {
                        arbitrary()
                    },
            ),
            is_dir: self.is_dir,
        }
    }
}

impl View for FileNode {
    type V = NodeV;

    open spec fn view(&self) -> NodeV {
        self.v()
    }
}

impl NodeV {
    /// Own size plus the total sizes of all descendants.
    pub open spec fn total(self) -> nat
        decreases self, 1nat,
    {
        (self.size + sum_nat(self.child_totals())) as nat
    }

    /// The total sizes of the direct children.
    pub open spec fn child_totals(self) -> Seq<nat>
        decreases self, 0nat,
    {
        Seq::new(
            self.children.len(),
            |i: int|
                if 0 <= i < self.children.len() {
                    self.children[i].total()
                } else {
                    0
                },
        )
    }

    /// Number of leaves that are not directories.
    pub open spec fn files(self) -> nat
        decreases self, 1nat,
    {
        if self.children.len() == 0 && !self.is_dir {
            1
        } else {
            sum_nat(self.child_files())
        }
    }

    /// The file counts of the direct children.
    pub open spec fn child_files(self) -> Seq<nat>
        decreases self, 0nat,
    {
        Seq::new(
            self.children.len(),
            |i: int|
                if 0 <= i < self.children.len() {
                    self.children[i].files()
                } else {
                    0
                },
        )
    }
}

impl Clone for FileNode {
    fn clone(&self) -> (r: FileNode)
        ensures
            r@ == self@,
    {
        self.deep_clone()
    }
}

impl FileNode {
    /// A copy of the whole tree.
    pub fn deep_clone(&self) -> (r: FileNode)
        ensures
            r.v() == self.v(),
        decreases self,
    {
        let mut children: Vec<FileNode> = Vec::new();
        let mut i: usize = 0;
        while i < self.children.len()
            invariant
                i <= self.children@.len(),
                children@.len() == i,
                forall|j: int| 0 <= j < i ==> (#[trigger] children@[j]).v() == self.children@[j].v(),
            decreases self.children@.len() - i,
        {
            let c = self.children[i].deep_clone();
            children.push(c);
            i = i + 1;
        }
        let r = FileNode {
            path: self.path.clone(),
            name: self.name.clone(),
            size: self.size,
            mtime: self.mtime,
            children,
            is_dir: self.is_dir,
        };
        assert(r.v().children =~= self.v().children);
        r
    }

    /// A node without children; an empty path is refused.
    pub fn new(path: String, name: String, size: u64, mtime: u64, is_dir: bool) -> (r: Result<
        FileNode,
        DomainError,
    >)
        ensures
            path@.len() == 0 ==> (r matches Err(DomainError::InvalidPath(m)) && m@ == "path is empty"@),
            path@.len() > 0 ==> (r matches Ok(n) && n.path@ == path@ && n.name@ == name@ && n.size
                == size && n.mtime == mtime && n.children@.len() == 0 && n.is_dir == is_dir),
    {
        if path.as_str().is_empty() {
            return Err(DomainError::InvalidPath(String::from_str("path is empty")));
        }
        Ok(FileNode { path, name, size, mtime, children: Vec::new(), is_dir })
    }

    /// Own size plus the total sizes of all descendants.
    pub fn total_size(&self) -> (r: u64)
        requires
            self@.total() <= u64::MAX,
        ensures
            r == self@.total(),
        decreases self,
    {
        let ghost ts = self@.child_totals();
        let mut acc: u64 = 0;
        let mut i: usize = 0;
        while i < self.children.len()
            invariant
                i <= self.children@.len(),
                ts == self@.child_totals(),
                ts.len() == self.children@.len(),
                self.size + sum_nat(ts) <= u64::MAX,
                acc == sum_nat(ts.take(i as int)),
            decreases self.children@.len() - i,
        {
            proof {
                lemma_sum_take_step(ts, i as int);
                lemma_sum_prefix_le(ts, i + 1);
                assert(ts[i as int] == self.children@[i as int]@.total());
            }
            let c = self.children[i].total_size();
            acc = acc + c;
            i = i + 1;
        }
        proof {
            lemma_sum_take_all(ts);
        }
        self.size + acc
    }

    /// Number of leaves that are not directories (an empty directory
    /// counts none).
    pub fn file_count(&self) -> (r: u64)
        requires
            self@.files() <= u64::MAX,
        ensures
            r == self@.files(),
        decreases self,
    {
        if self.children.is_empty() && !self.is_dir {
            return 1;
        }
        let ghost fs = self@.child_files();
        let mut acc: u64 = 0;
        let mut i: usize = 0;
        while i < self.children.len()
            invariant
                i <= self.children@.len(),
                fs == self@.child_files(),
                fs.len() == self.children@.len(),
                sum_nat(fs) <= u64::MAX,
                acc == sum_nat(fs.take(i as int)),
            decreases self.children@.len() - i,
        {
            proof {
                lemma_sum_take_step(fs, i as int);
                lemma_sum_prefix_le(fs, i + 1);
                assert(fs[i as int] == self.children@[i as int]@.files());
            }
            let c = self.children[i].file_count();
            acc = acc + c;
            i = i + 1;
        }
        proof {
            lemma_sum_take_all(fs);
        }
        acc
    }
}

// ── glob patterns ────────────────────────────────────────────────────────

/// `t` matches the glob pattern `p`: `*` matches any run of characters,
/// `?` exactly one, any other character itself (case-sensitive).
pub open spec fn glob(p: Seq<char>, t: Seq<char>) -> bool
    decreases p.len() + t.len(),
{
    if p.len() == 0 {
        t.len() == 0
    } else if p[0] == '*' {
        glob(p.drop_first(), t) || (t.len() > 0 && glob(p, t.drop_first()))
    } else {
        t.len() > 0 && (p[0] == '?' || p[0] == t[0]) && glob(p.drop_first(), t.drop_first())
    }
}

/// Whether `text` matches the glob `pattern`.
pub fn glob_matches(pattern: &str, text: &str) -> (r: bool)
    ensures
        r == glob(pattern@, text@),
{
    let pb = chars_of(pattern);
    let tb = chars_of(text);
    matches_inner(&pb, &tb)
}

/// Whether `text` matches `pattern`, computed over all pairs of suffixes
/// from the ends towards the starts.
pub fn matches_inner(pattern: &Vec<char>, text: &Vec<char>) -> (r: bool)
    ensures
        r == glob(pattern@, text@),
{
    let lp = pattern.len();
    let lt = text.len();
    let ghost p = pattern@;
    let ghost t = text@;
    // Row i holds glob(p.skip(i), t.skip(j)) at index j, for j in 0..=lt.
    let mut next: Vec<bool> = Vec::new();
    let mut j: usize = 0;
    while j < lt
        invariant
            lt == t.len(),
            lp == p.len(),
            j <= lt,
            next@.len() == j,
            forall|k: int| 0 <= k < j ==> next@[k] == glob(p.skip(lp as int), t.skip(k)),
        decreases lt - j,
    {
        assert(p.skip(lp as int).len() == 0);
        next.push(false);
        j = j + 1;
    }
    assert(p.skip(lp as int).len() == 0);
    assert(t.skip(lt as int).len() == 0);
    next.push(true);
    let mut i: usize = lp;
    while i > 0
        invariant
            lp == p.len(),
            lt == t.len(),
            p == pattern@,
            t == text@,
            i <= lp,
            next@.len() == lt + 1,
            forall|k: int| 0 <= k <= lt ==> next@[k] == glob(p.skip(i as int), t.skip(k)),
        decreases i,
    {
        let pi = i - 1;
        let c = pattern[pi];
        let ghost ps = p.skip(pi as int);
        assert(ps[0] == c);
        assert(ps.drop_first() =~= p.skip(i as int));
        // cur[m] is the entry for j == lt - m.
        let mut cur: Vec<bool> = Vec::new();
        let mut jj: usize = lt;
        loop
            invariant_except_break
                cur@.len() == lt - jj,
                forall|q: int| 0 <= q < lt - jj ==> cur@[q] == glob(ps, t.skip(lt - q)),
            invariant
                lp == p.len(),
                lt == t.len(),
                p == pattern@,
                t == text@,
                pi < lp,
                ps == p.skip(pi as int),
                ps[0] == c,
                ps.drop_first() == p.skip(pi + 1),
                next@.len() == lt + 1,
                forall|k: int| 0 <= k <= lt ==> next@[k] == glob(p.skip(pi + 1), t.skip(k)),
                jj <= lt,
            ensures
                cur@.len() == lt + 1,
                forall|q: int| 0 <= q <= lt ==> cur@[q] == glob(ps, t.skip(lt - q)),
            decreases jj,
        {
            let ghost ts = t.skip(jj as int);
            proof {
                if jj < lt {
                    assert(ts[0] == t[jj as int]);
                    assert(ts.drop_first() =~= t.skip(jj + 1));
                }
            }
            let v = if c == '*' {
                next[jj] || (jj < lt && cur[lt - jj - 1])
            } else {
                jj < lt && (c == '?' || c == text[jj]) && next[jj + 1]
            };
            cur.push(v);
            if jj == 0 {
                break;
            }
            jj = jj - 1;
        }
        // Reverse into row order.
        let mut row: Vec<bool> = Vec::new();
        let mut k: usize = 0;
        while k < lt
            invariant
                lt == t.len(),
                cur@.len() == lt + 1,
                forall|q: int| 0 <= q <= lt ==> cur@[q] == glob(ps, t.skip(lt - q)),
                k <= lt,
                row@.len() == k,
                forall|q: int| 0 <= q < k ==> row@[q] == glob(ps, t.skip(q)),
            decreases lt - k,
        {
            row.push(cur[lt - k]);
            k = k + 1;
        }
        row.push(cur[0]);
        next = row;
        i = pi;
    }
    assert(p.skip(0) =~= p);
    assert(t.skip(0) =~= t);
    next[0]
}

// ── criteria ─────────────────────────────────────────────────────────────

/// The clock, as whole seconds since the Unix epoch (`SystemTime::now`,
/// zero for a clock set before the epoch). Nothing is stated of the value:
/// it is the time of the call.
#[verifier::external_body]
pub(crate) fn unix_now_secs() -> u64 {
    std::time::SystemTime::now().duration_since(std::time::UNIX_EPOCH).map(|d| d.as_secs()).unwrap_or(0)
}

/// One criterion over an entry.
#[derive(Debug, Clone)]
pub enum Filter {
    /// Own size at least this.
    MinSize(u64),
    /// Own size at most this.
    MaxSize(u64),
    /// The name's extension (after its last `.`) equals this, ignoring
    /// ASCII case.
    Extension(String),
    /// Modified at most this many seconds before the reference time.
    MaxAge(u64),
    /// The name matches this glob pattern.
    NamePattern(String),
}

impl Filter {
    /// Whether an entry meets the criterion at reference time `now`.
    pub open spec fn holds(&self, n: NodeV, now: u64) -> bool {
        match self {
            Filter::MinSize(min) => n.size >= *min,
            Filter::MaxSize(max) => n.size <= *max,
            Filter::Extension(ext) => match after_last_dot(n.name) {
                Some(e) => ascii_lower_seq(e) == ascii_lower_seq(ext@),
                None => false,
            },
            Filter::MaxAge(secs) => (if now >= n.mtime {
                now - n.mtime
            } else {
                0
            }) <= *secs,
            Filter::NamePattern(pat) => glob(pat@, n.name),
        }
    }
}

/// The extension criterion holds exactly for an entry whose name has an
/// extension (the text after its last `.`) equal to the given one when
/// ASCII letters are compared without regard to case.
pub proof fn law_extension_criterion_ignores_ascii_case(ext: String, n: NodeV, now: u64)
    ensures
        Filter::Extension(ext).holds(n, now) <==> (after_last_dot(n.name) matches Some(e)
            && eq_ignore_ascii_case(e, ext@)),
{
    match after_last_dot(n.name) {
        Some(e) => lemma_lower_eq_iff(e, ext@),
        None => {},
    }
}

/// Whether an entry meets every criterion at reference time `now`.
pub open spec fn all_hold(filters: Seq<Filter>, n: NodeV, now: u64) -> bool {
    forall|i: int| 0 <= i < filters.len() ==> (#[trigger] filters[i]).holds(n, now)
}

/// Number of levels below the node.
pub open spec fn height(n: NodeV) -> nat
    decreases n,
{
    if n.children.len() == 0 {
        0
    } else {
        1 + max_height(n, n.children.len() as nat)
    }
}

/// The greatest height among the first `k` children.
pub open spec fn max_height(n: NodeV, k: nat) -> nat
    decreases n, k,
{
    if k == 0 || k > n.children.len() {
        0
    } else {
        let h = height(n.children[k - 1]);
        let m = max_height(n, (k - 1) as nat);
        if h > m {
            h
        } else {
            m
        }
    }
}

proof fn lemma_max_height(n: NodeV, k: nat, i: int)
    requires
        0 <= i < k <= n.children.len(),
    ensures
        height(n.children[i]) <= max_height(n, k),
    decreases k,
{
    if i < k - 1 {
        lemma_max_height(n, (k - 1) as nat, i);
    }
}

/// A child is at least one level lower than its parent.
pub proof fn lemma_child_height(n: NodeV, i: int)
    requires
        0 <= i < n.children.len(),
    ensures
        height(n.children[i]) + 1 <= height(n),
{
    lemma_max_height(n, n.children.len() as nat, i);
}

/// The tree at `n`, at `depth`, kept by `filters` and `max_depth`: below
/// the depth limit and under files nothing is kept; a node is kept when
/// it meets every criterion or keeps some child.
pub open spec fn filtered(
    n: NodeV,
    filters: Seq<Filter>,
    max_depth: Option<u32>,
    depth: nat,
    now: u64,
) -> Option<NodeV>
    decreases n, 1nat, 0nat,
{
    let at_limit = max_depth matches Some(d) && depth >= d;
    let kids = if at_limit || !n.is_dir {
        Seq::empty()
    } else {
        filtered_children(n, filters, max_depth, depth, now, n.children.len() as nat)
    };
    if all_hold(filters, n, now) || kids.len() > 0 {
        Some(NodeV { children: kids, ..n })
    } else {
        None
    }
}

/// The kept trees of the first `k` children of `n`, in order.
pub open spec fn filtered_children(
    n: NodeV,
    filters: Seq<Filter>,
    max_depth: Option<u32>,
    depth: nat,
    now: u64,
    k: nat,
) -> Seq<NodeV>
    decreases n, 0nat, k,
{
    if k == 0 || k > n.children.len() {
        Seq::empty()
    } else {
        let rest = filtered_children(n, filters, max_depth, depth, now, (k - 1) as nat);
        match filtered(n.children[k - 1], filters, max_depth, depth + 1, now) {
            Some(c) => rest.push(c),
            None => rest,
        }
    }
}

/// The value of an optional tree.
pub open spec fn opt_v(o: Option<FileNode>) -> Option<NodeV> {
    match o {
        Some(n) => Some(n@),
        None => None,
    }
}

impl FileNode {
    fn matches_filter_at(&self, filter: &Filter, now: u64) -> (r: bool)
        ensures
            r == filter.holds(self@, now),
    {
        match filter {
            Filter::MinSize(min) => self.size >= *min,
            Filter::MaxSize(max) => self.size <= *max,
            Filter::Extension(ext) => {
                let cs = chars_of(self.name.as_str());
                let n = cs.len();
                match rfind_char(&cs, '.') {
                    Some(i) => {
                        let e = suffix_string(&cs, i + 1);
                        let a = ascii_lowercase_chars(e.as_str());
                        let b = ascii_lowercase_chars(ext.as_str());
                        chars_equal(&a, &b)
                    },
                    None => false,
                }
            },
            Filter::MaxAge(secs) => {
                let age = now.saturating_sub(self.mtime);
                age <= *secs
            },
            Filter::NamePattern(pattern) => glob_matches(pattern.as_str(), self.name.as_str()),
        }
    }

    /// Whether this node meets every criterion at reference time `now`.
    pub fn matches_filters_at(&self, filters: &[Filter], now: u64) -> (r: bool)
        ensures
            r == all_hold(filters@, self@, now),
    {
        let mut i: usize = 0;
        while i < filters.len()
            invariant
                i <= filters@.len(),
                forall|j: int| 0 <= j < i ==> (#[trigger] filters@[j]).holds(self@, now),
            decreases filters@.len() - i,
        {
            if !self.matches_filter_at(&filters[i], now) {
                return false;
            }
            i = i + 1;
        }
        true
    }

    /// Whether this node meets every criterion, ages being measured from
    /// the clock at the call.
    pub fn matches_filters(&self, filters: &[Filter]) -> (r: bool)
        ensures
            exists|now: u64| r == all_hold(filters@, self@, now),
    {
        let now = unix_now_secs();
        self.matches_filters_at(filters, now)
    }

    fn filter_inner(&self, filters: &[Filter], max_depth: Option<u32>, depth: u32, now: u64) -> (r: Option<FileNode>)
        requires
            max_depth is Some || depth + height(self@) <= u32::MAX,
        ensures
            opt_v(r) == filtered(self@, filters@, max_depth, depth as nat, now),
        decreases self,
    {
        let at_depth_limit = match max_depth {
            Some(d) => depth >= d,
            None => false,
        };
        let mut kids: Vec<FileNode> = Vec::new();
        if !(at_depth_limit || !self.is_dir) {
            let mut k: usize = 0;
            while k < self.children.len()
                invariant
                    k <= self.children@.len(),
                    !at_depth_limit,
                    at_depth_limit == (max_depth matches Some(d) && depth >= d),
                    max_depth is Some || depth + height(self@) <= u32::MAX,
                    kids@.map_values(|c: FileNode| c@) == filtered_children(
                        self@,
                        filters@,
                        max_depth,
                        depth as nat,
                        now,
                        k as nat,
                    ),
                decreases self.children@.len() - k,
            {
                proof {
                    lemma_child_height(self@, k as int);
                    assert(self@.children[k as int] == self.children@[k as int]@);
                }
                let ghost before = kids@;
                let c = self.children[k].filter_inner(filters, max_depth, depth + 1, now);
                match c {
                    Some(node) => {
                        kids.push(node);
                        assert(kids@.map_values(|c: FileNode| c@) =~= before.map_values(
                            |c: FileNode| c@,
                        ).push(kids@.last()@));
                    },
                    None => {},
                }
                k = k + 1;
            }
        }
        let ghost kspec = if at_depth_limit || !self.is_dir {
            Seq::<NodeV>::empty()
        } else {
            filtered_children(self@, filters@, max_depth, depth as nat, now, self.children@.len() as nat)
        };
        assert(kids@.map_values(|c: FileNode| c@) =~= kspec);
        let passes = self.matches_filters_at(filters, now);
        if passes || kids.len() > 0 {
            let r = FileNode {
                path: self.path.clone(),
                name: self.name.clone(),
                size: self.size,
                mtime: self.mtime,
                children: kids,
                is_dir: self.is_dir,
            };
            assert(r@.children =~= kids@.map_values(|c: FileNode| c@));
            Some(r)
        } else {
            None
        }
    }

    /// The tree kept by `filters` and `max_depth` at reference time `now`.
    pub fn filter_at(&self, filters: &[Filter], max_depth: Option<u32>, now: u64) -> (r: Option<FileNode>)
        requires
            max_depth is Some || height(self@) <= u32::MAX,
        ensures
            opt_v(r) == filtered(self@, filters@, max_depth, 0, now),
    {
        self.filter_inner(filters, max_depth, 0, now)
    }

    /// The tree kept by `filters` and `max_depth` (`None` for no limit),
    /// ages being measured from the clock at the call: a node is kept when
    /// it meets every criterion or keeps a descendant.
    pub fn filter(&self, filters: &[Filter], max_depth: Option<u32>) -> (r: Option<FileNode>)
        requires
            max_depth is Some || height(self@) <= u32::MAX,
        ensures
            exists|now: u64| opt_v(r) == filtered(self@, filters@, max_depth, 0, now),
    {
        let now = unix_now_secs();
        self.filter_at(filters, max_depth, now)
    }
}

// ── sorting ──────────────────────────────────────────────────────────────

/// Whether `key` orders from largest or from last.
pub open spec fn key_desc(key: SortKey) -> bool {
    key == SortKey::SizeDesc || key == SortKey::NameDesc
}

/// The sort key of a child: its total size, or its name.
pub open spec fn child_key(key: SortKey, c: NodeV) -> KeyV {
    match key {
        SortKey::SizeDesc | SortKey::SizeAsc => KeyV::Num(c.total()),
        SortKey::NameAsc | SortKey::NameDesc => KeyV::Text(c.name),
    }
}

/// The sort keys of a sequence of children.
pub open spec fn child_keys(key: SortKey, cs: Seq<NodeV>) -> Seq<KeyV> {
    cs.map_values(|c: NodeV| child_key(key, c))
}

/// `r` is `n` with the children of every node stably sorted by `key`.
pub open spec fn sorted_tree(r: NodeV, n: NodeV, key: SortKey) -> bool
    decreases n,
{
    &&& r.path == n.path
    &&& r.name == n.name
    &&& r.size == n.size
    &&& r.mtime == n.mtime
    &&& r.is_dir == n.is_dir
    &&& r.children.len() == n.children.len()
    &&& exists|p: Seq<int>|
        #![trigger crate::sorting::is_perm(p, n.children.len())]
        crate::sorting::is_perm(p, n.children.len()) && crate::sorting::stable_by_keys(
            child_keys(key, n.children),
            key_desc(key),
            p,
        ) && forall|k: int|
            0 <= k < r.children.len() ==> 0 <= #[trigger] p[k] < n.children.len() && sorted_tree(
                r.children[k],
                n.children[p[k]],
                key,
            )
}

/// A child's total is at most its parent's.
pub proof fn lemma_child_total_le(n: NodeV, i: int)
    requires
        0 <= i < n.children.len(),
    ensures
        n.children[i].total() <= n.total(),
{
    crate::sums::lemma_sum_elem_le(n.child_totals(), i);
}

impl FileNode {
    fn key_exec(&self, key: SortKey) -> (k: Key)
        requires
            self@.total() <= u64::MAX,
        ensures
            k.key_view() == child_key(key, self@),
    {
        match key {
            SortKey::SizeDesc | SortKey::SizeAsc => Key::Num(self.total_size()),
            SortKey::NameAsc | SortKey::NameDesc => Key::Text(chars_of(self.name.as_str())),
        }
    }

    /// A copy of the tree with the children of every node sorted by `key`
    /// (stably: equal keys keep their order).
    pub fn sort(&self, key: SortKey) -> (r: FileNode)
        requires
            self@.total() <= u64::MAX,
        ensures
            sorted_tree(r@, self@, key),
        decreases self,
    {
        let mut kids: Vec<FileNode> = Vec::new();
        let mut keys: Vec<Key> = Vec::new();
        let mut i: usize = 0;
        while i < self.children.len()
            invariant
                i <= self.children@.len(),
                self@.total() <= u64::MAX,
                kids@.len() == i,
                keys@.len() == i,
                forall|j: int| 0 <= j < i ==> sorted_tree((#[trigger] kids@[j])@, self@.children[j], key),
                forall|j: int| 0 <= j < i ==> (#[trigger] keys@[j]).key_view() == child_key(
                    key,
                    self@.children[j],
                ),
            decreases self.children@.len() - i,
        {
            proof {
                assert(self@.children[i as int] == self.children@[i as int]@);
                lemma_child_total_le(self@, i as int);
            }
            let c = &self.children[i];
            kids.push(c.sort(key));
            keys.push(c.key_exec(key));
            i = i + 1;
        }
        assert(key_views(keys@) =~= child_keys(key, self@.children));
        let desc = match key {
            SortKey::SizeDesc | SortKey::NameDesc => true,
            _ => false,
        };
        let ghost kv = kids@;
        let (sorted, Ghost(p)) = sort_by_keys(kids, keys, desc);
        let r = FileNode {
            path: self.path.clone(),
            name: self.name.clone(),
            size: self.size,
            mtime: self.mtime,
            children: sorted,
            is_dir: self.is_dir,
        };
        proof {
            assert forall|k: int| 0 <= k < r@.children.len() implies 0 <= #[trigger] p[k]
                < self@.children.len() && sorted_tree(r@.children[k], self@.children[p[k]], key) by {
                assert(r@.children[k] == sorted@[k]@);
                assert(sorted@[k] == kv[p[k]]);
            }
            assert(crate::sorting::is_perm(p, self@.children.len()));
        }
        r
    }
}

/// Sorting keeps a node's total size.
pub proof fn lemma_sorted_tree_total(r: NodeV, n: NodeV, key: SortKey)
    requires
        sorted_tree(r, n, key),
    ensures
        r.total() == n.total(),
    decreases n,
{
    let p = choose|p: Seq<int>|
        #![trigger crate::sorting::is_perm(p, n.children.len())]
        crate::sorting::is_perm(p, n.children.len()) && crate::sorting::stable_by_keys(
            child_keys(key, n.children),
            key_desc(key),
            p,
        ) && forall|k: int|
            0 <= k < r.children.len() ==> 0 <= #[trigger] p[k] < n.children.len() && sorted_tree(
                r.children[k],
                n.children[p[k]],
                key,
            );
    assert forall|k: int| 0 <= k < r.child_totals().len() implies r.child_totals()[k]
        == n.child_totals()[#[trigger] p[k]] by {
        lemma_sorted_tree_total(r.children[k], n.children[p[k]], key);
    }
    crate::sums::lemma_sum_reorder(n.child_totals(), r.child_totals(), p);
}

/// `a` may stand before `b` among children sorted by `key`: larger total
/// first for `SizeDesc`, smaller first for `SizeAsc`, names in ascending
/// or descending lexicographic order for `NameAsc` and `NameDesc`.
pub open spec fn in_key_order(key: SortKey, a: NodeV, b: NodeV) -> bool {
    match key {
        SortKey::SizeDesc => a.total() >= b.total(),
        SortKey::SizeAsc => a.total() <= b.total(),
        SortKey::NameAsc => crate::sorting::lex_le(a.name, b.name),
        SortKey::NameDesc => crate::sorting::lex_le(b.name, a.name),
    }
}

/// After a sort by `key`, the children of a node stand in that key's
/// order: by total size, largest or smallest first, or by name, A to Z
/// or Z to A (and so at every level, the children being sorted trees).
pub proof fn law_sorted_children_in_key_order(r: NodeV, n: NodeV, key: SortKey)
    requires
        sorted_tree(r, n, key),
    ensures
        forall|i: int, j: int|
            0 <= i < j < r.children.len() ==> in_key_order(key, #[trigger] r.children[i], #[trigger] r.children[j]),
{
    let keys = child_keys(key, n.children);
    let p = choose|p: Seq<int>|
        #![trigger crate::sorting::is_perm(p, n.children.len())]
        crate::sorting::is_perm(p, n.children.len()) && crate::sorting::stable_by_keys(
            keys,
            key_desc(key),
            p,
        ) && forall|k: int|
            0 <= k < r.children.len() ==> 0 <= #[trigger] p[k] < n.children.len() && sorted_tree(
                r.children[k],
                n.children[p[k]],
                key,
            );
    assert forall|i: int, j: int| 0 <= i < j < r.children.len() implies in_key_order(
        key,
        #[trigger] r.children[i],
        #[trigger] r.children[j],
    ) by {
        assert(crate::sorting::key_le(keys[p[i]], keys[p[j]], key_desc(key)));
        assert(sorted_tree(r.children[i], n.children[p[i]], key));
        assert(sorted_tree(r.children[j], n.children[p[j]], key));
        lemma_sorted_tree_total(r.children[i], n.children[p[i]], key);
        lemma_sorted_tree_total(r.children[j], n.children[p[j]], key);
        assert(keys[p[i]] == child_key(key, n.children[p[i]]));
        assert(keys[p[j]] == child_key(key, n.children[p[j]]));
    }
}

// ── rendering ────────────────────────────────────────────────────────────

/// Every node of the tree has a total that fits in 64 bits.
pub open spec fn totals_fit(n: NodeV) -> bool
    decreases n,
{
    n.total() <= u64::MAX && forall|i: int|
        0 <= i < n.children.len() ==> totals_fit(#[trigger] n.children[i])
}

/// A tree whose total fits has every total fitting.
pub proof fn lemma_totals_fit(n: NodeV)
    requires
        n.total() <= u64::MAX,
    ensures
        totals_fit(n),
    decreases n,
{
    assert forall|i: int| 0 <= i < n.children.len() implies totals_fit(#[trigger] n.children[i]) by {
        lemma_child_total_le(n, i);
        lemma_totals_fit(n.children[i]);
    }
}

/// A character as it appears inside a JSON string written by this module.
pub open spec fn esc_char(c: char) -> Seq<char> {
    if c == '"' {
        "\\\""@
    } else if c == '\\' {
        "\\\\"@
    } else if c == '\n' {
        "\\n"@
    } else if c == '\r' {
        "\\r"@
    } else if c == '\t' {
        "\\t"@
    } else {
        seq![c]
    }
}

/// A text with quotes, backslashes, newlines, returns and tabs escaped.
pub open spec fn esc(t: Seq<char>) -> Seq<char>
    decreases t.len(),
{
    if t.len() == 0 {
        Seq::empty()
    } else {
        esc(t.drop_last()) + esc_char(t.last())
    }
}

/// `"key":"value"` with the value escaped.
pub open spec fn jstr(key: Seq<char>, val: Seq<char>) -> Seq<char> {
    "\""@ + key + "\":\""@ + esc(val) + "\""@
}

/// `"key":digits`.
pub open spec fn jnum(key: Seq<char>, val: nat) -> Seq<char> {
    "\""@ + key + "\":"@ + crate::text::dec(val)
}

/// `"key":true` or `"key":false`.
pub open spec fn jbool(key: Seq<char>, val: bool) -> Seq<char> {
    "\""@ + key + "\":"@ + if val {
        "true"@
    } else {
        "false"@
    }
}

/// The fields of a node's JSON object, from the opening brace to the
/// directory flag.
pub open spec fn json_head(n: NodeV) -> Seq<char> {
    "{"@ + jstr("name"@, n.name) + ","@ + jstr("path"@, n.path) + ","@ + jnum("size"@, n.size as nat)
        + ","@ + jnum("total_size"@, n.total()) + ","@ + jnum("mtime"@, n.mtime as nat) + ","@
        + jbool("is_dir"@, n.is_dir)
}

/// The JSON object of a node and its subtree.
pub open spec fn json(n: NodeV) -> Seq<char>
    decreases n, 1nat, 0nat,
{
    json_head(n) + (if n.children.len() > 0 {
        ",\"children\":["@ + json_list(n, n.children.len() as nat) + "]"@
    } else {
        Seq::empty()
    }) + "}"@
}

/// The JSON objects of the first `k` children, comma-separated.
pub open spec fn json_list(n: NodeV, k: nat) -> Seq<char>
    decreases n, 0nat, k,
{
    if k == 0 || k > n.children.len() {
        Seq::empty()
    } else if k == 1 {
        json(n.children[0])
    } else {
        json_list(n, (k - 1) as nat) + ","@ + json(n.children[k - 1])
    }
}

/// One JSON object per line for the node and each descendant, in
/// pre-order.
pub open spec fn jsonl(n: NodeV) -> Seq<char>
    decreases n, 1nat, 0nat,
{
    json(n) + "\n"@ + jsonl_list(n, n.children.len() as nat)
}

/// The JSON lines of the first `k` children's subtrees.
pub open spec fn jsonl_list(n: NodeV, k: nat) -> Seq<char>
    decreases n, 0nat, k,
{
    if k == 0 || k > n.children.len() {
        Seq::empty()
    } else {
        jsonl_list(n, (k - 1) as nat) + jsonl(n.children[k - 1])
    }
}

/// The extension of a name (after its last `.`), or nothing.
pub open spec fn name_ext(name: Seq<char>) -> Seq<char> {
    match after_last_dot(name) {
        Some(e) => e,
        None => Seq::empty(),
    }
}

/// A table row: name, total size, modification time, and `dir` or the
/// extension, separated by tabs.
pub open spec fn table_row(n: NodeV) -> Seq<char> {
    n.name + "\t"@ + crate::engine::domain::size::size_text(n.total()) + "\t"@ + crate::text::dec(
        n.mtime as nat,
    ) + "\t"@ + (if n.is_dir {
        "dir"@
    } else {
        name_ext(n.name)
    }) + "\n"@
}

/// The rows of the leaves (nodes without children) under `n`, in order.
pub open spec fn leaf_rows(n: NodeV) -> Seq<char>
    decreases n, 1nat, 0nat,
{
    if n.children.len() == 0 {
        table_row(n)
    } else {
        leaf_rows_list(n, n.children.len() as nat)
    }
}

/// The leaf rows of the first `k` children.
pub open spec fn leaf_rows_list(n: NodeV, k: nat) -> Seq<char>
    decreases n, 0nat, k,
{
    if k == 0 || k > n.children.len() {
        Seq::empty()
    } else {
        leaf_rows_list(n, (k - 1) as nat) + leaf_rows(n.children[k - 1])
    }
}

/// The table: a header, then one row per leaf.
pub open spec fn table_text(n: NodeV) -> Seq<char> {
    "Name\tSize\tModified\tType\n"@ + leaf_rows(n)
}

/// Two spaces per level.
pub open spec fn indent(depth: nat) -> Seq<char>
    decreases depth,
{
    if depth == 0 {
        Seq::empty()
    } else {
        indent((depth - 1) as nat) + "  "@
    }
}

/// The indented tree: one line per node with its name and total size.
pub open spec fn tree_text(n: NodeV, depth: nat) -> Seq<char>
    decreases n, 1nat, 0nat,
{
    indent(depth) + n.name + " ("@ + crate::engine::domain::size::size_text(n.total()) + ")\n"@
        + tree_list(n, depth, n.children.len() as nat)
}

/// The tree lines of the first `k` children, one level deeper.
pub open spec fn tree_list(n: NodeV, depth: nat, k: nat) -> Seq<char>
    decreases n, 0nat, k,
{
    if k == 0 || k > n.children.len() {
        Seq::empty()
    } else {
        tree_list(n, depth, (k - 1) as nat) + tree_text(n.children[k - 1], depth + 1)
    }
}

/// The rendering of a tree in a format.
pub open spec fn formatted(n: NodeV, fmt: OutputFormat) -> Seq<char> {
    match fmt {
        OutputFormat::Json => json(n),
        OutputFormat::Table => table_text(n),
        OutputFormat::Jsonl => jsonl(n),
        OutputFormat::Tree => tree_text(n, 0),
    }
}

/// Appends `val` escaped for a JSON string literal.
pub(crate) fn push_escaped(s: &mut String, val: &str)
    ensures
        final(s)@ == old(s)@ + esc(val@),
{
    let cs = chars_of(val);
    let mut i: usize = 0;
    while i < cs.len()
        invariant
            i <= cs@.len(),
            cs@ == val@,
            s@ == old(s)@ + esc(cs@.take(i as int)),
        decreases cs@.len() - i,
    {
        let c = cs[i];
        if c == '"' {
            s.append("\\\"");
        } else if c == '\\' {
            s.append("\\\\");
        } else if c == '\n' {
            s.append("\\n");
        } else if c == '\r' {
            s.append("\\r");
        } else if c == '\t' {
            s.append("\\t");
        } else {
            crate::text::push_char(s, c);
        }
        assert(cs@.take(i + 1).drop_last() =~= cs@.take(i as int));
        i = i + 1;
        assert(s@ =~= old(s)@ + esc(cs@.take(i as int)));
    }
    assert(cs@.take(cs@.len() as int) =~= cs@);
}

fn json_str(s: &mut String, key: &str, val: &str)
    ensures
        final(s)@ == old(s)@ + jstr(key@, val@),
{
    s.append("\"");
    s.append(key);
    s.append("\":\"");
    push_escaped(s, val);
    s.append("\"");
    assert(final(s)@ =~= old(s)@ + jstr(key@, val@));
}

fn json_u64(s: &mut String, key: &str, val: u64)
    ensures
        final(s)@ == old(s)@ + jnum(key@, val as nat),
{
    s.append("\"");
    s.append(key);
    s.append("\":");
    crate::text::push_dec(s, val as u128);
    assert(final(s)@ =~= old(s)@ + jnum(key@, val as nat));
}

fn json_bool(s: &mut String, key: &str, val: bool)
    ensures
        final(s)@ == old(s)@ + jbool(key@, val),
{
    s.append("\"");
    s.append(key);
    s.append("\":");
    s.append(if val { "true" } else { "false" });
    assert(final(s)@ =~= old(s)@ + jbool(key@, val));
}

fn push_piece(s: &mut String, piece: &str, Ghost(base): Ghost<Seq<char>>, Ghost(pre): Ghost<Seq<char>>)
    requires
        old(s)@ == base + pre,
    ensures
        final(s)@ == base + (pre + piece@),
{
    s.append(piece);
    proof { vstd::seq_lib::lemma_concat_associative(base, pre, piece@); }
}

fn json_head_into(node: &FileNode, s: &mut String)
    requires
        node@.total() <= u64::MAX,
    ensures
        final(s)@ == old(s)@ + json_head(node@),
{
    let ghost b = s@;
    let ghost n = node@;
    assert(s@ =~= b + Seq::<char>::empty());
    push_piece(s, "{", Ghost(b), Ghost(Seq::<char>::empty()));
    let ghost p1 = Seq::<char>::empty() + "{"@;
    let ghost s1 = s@;
    json_str(s, "name", node.name.as_str());
    proof { vstd::seq_lib::lemma_concat_associative(b, p1, jstr("name"@, n.name)); }
    let ghost p2 = p1 + jstr("name"@, n.name);
    push_piece(s, ",", Ghost(b), Ghost(p2));
    let ghost p3 = p2 + ","@;
    json_str(s, "path", node.path.as_str());
    proof { vstd::seq_lib::lemma_concat_associative(b, p3, jstr("path"@, n.path)); }
    let ghost p4 = p3 + jstr("path"@, n.path);
    push_piece(s, ",", Ghost(b), Ghost(p4));
    let ghost p5 = p4 + ","@;
    json_u64(s, "size", node.size);
    proof { vstd::seq_lib::lemma_concat_associative(b, p5, jnum("size"@, n.size as nat)); }
    let ghost p6 = p5 + jnum("size"@, n.size as nat);
    push_piece(s, ",", Ghost(b), Ghost(p6));
    let ghost p7 = p6 + ","@;
    let t = node.total_size();
    json_u64(s, "total_size", t);
    proof { vstd::seq_lib::lemma_concat_associative(b, p7, jnum("total_size"@, n.total())); }
    let ghost p8 = p7 + jnum("total_size"@, n.total());
    push_piece(s, ",", Ghost(b), Ghost(p8));
    let ghost p9 = p8 + ","@;
    json_u64(s, "mtime", node.mtime);
    proof { vstd::seq_lib::lemma_concat_associative(b, p9, jnum("mtime"@, n.mtime as nat)); }
    let ghost p10 = p9 + jnum("mtime"@, n.mtime as nat);
    push_piece(s, ",", Ghost(b), Ghost(p10));
    let ghost p11 = p10 + ","@;
    json_bool(s, "is_dir", node.is_dir);
    proof { vstd::seq_lib::lemma_concat_associative(b, p11, jbool("is_dir"@, n.is_dir)); }
    assert(p11 + jbool("is_dir"@, n.is_dir) =~= json_head(n));
}

fn node_to_json(node: &FileNode, s: &mut String)
    requires
        totals_fit(node@),
    ensures
        final(s)@ == old(s)@ + json(node@),
    decreases node,
{
    let ghost start = s@;
    json_head_into(node, s);
    let ghost head = s@;
    if !node.children.is_empty() {
        s.append(",\"children\":[");
        let ghost open_at = s@;
        let mut i: usize = 0;
        while i < node.children.len()
            invariant
                i <= node.children@.len(),
                node.children@.len() > 0,
                totals_fit(node@),
                s@ == open_at + json_list(node@, i as nat),
            decreases node.children@.len() - i,
        {
            if i > 0 {
                s.append(",");
            }
            proof {
                assert(node@.children[i as int] == node.children@[i as int]@);
            }
            node_to_json(&node.children[i], s);
            i = i + 1;
            assert(s@ =~= open_at + json_list(node@, i as nat));
        }
        s.append("]");
        let ghost mid = s@;
        assert(mid =~= head + (",\"children\":["@ + json_list(node@, node@.children.len() as nat) + "]"@));
    } else {
        assert(s@ =~= head + Seq::<char>::empty());
    }
    s.append("}");
    assert(s@ =~= start + json(node@));
}

fn collect_jsonl(node: &FileNode, out: &mut String)
    requires
        totals_fit(node@),
    ensures
        final(out)@ == old(out)@ + jsonl(node@),
    decreases node,
{
    let ghost start = out@;
    let mut line = String::new();
    node_to_json(node, &mut line);
    out.append(line.as_str());
    out.append("\n");
    let ghost mid = out@;
    let mut i: usize = 0;
    while i < node.children.len()
        invariant
            i <= node.children@.len(),
            totals_fit(node@),
            out@ == mid + jsonl_list(node@, i as nat),
        decreases node.children@.len() - i,
    {
        proof {
            assert(node@.children[i as int] == node.children@[i as int]@);
        }
        collect_jsonl(&node.children[i], out);
        i = i + 1;
        assert(out@ =~= mid + jsonl_list(node@, i as nat));
    }
    assert(out@ =~= start + jsonl(node@));
}

fn push_row(out: &mut String, node: &FileNode)
    requires
        node@.total() <= u64::MAX,
    ensures
        final(out)@ == old(out)@ + table_row(node@),
{
    out.append(node.name.as_str());
    out.append("\t");
    let t = node.total_size();
    let sz = crate::engine::domain::size::size_string(t);
    out.append(sz.as_str());
    out.append("\t");
    crate::text::push_dec(out, node.mtime as u128);
    out.append("\t");
    if node.is_dir {
        out.append("dir");
    } else {
        let cs = chars_of(node.name.as_str());
        let n = cs.len();
        match rfind_char(&cs, '.') {
            Some(i) => {
                let e = suffix_string(&cs, i + 1);
                out.append(e.as_str());
            },
            None => {},
        }
    }
    out.append("\n");
    assert(final(out)@ =~= old(out)@ + table_row(node@));
}

fn collect_rows(node: &FileNode, out: &mut String)
    requires
        totals_fit(node@),
    ensures
        final(out)@ == old(out)@ + leaf_rows(node@),
    decreases node,
{
    if node.children.is_empty() {
        push_row(out, node);
    } else {
        let ghost start = out@;
        let mut i: usize = 0;
        while i < node.children.len()
            invariant
                i <= node.children@.len(),
                totals_fit(node@),
                out@ == start + leaf_rows_list(node@, i as nat),
            decreases node.children@.len() - i,
        {
            proof {
                assert(node@.children[i as int] == node.children@[i as int]@);
            }
            collect_rows(&node.children[i], out);
            i = i + 1;
            assert(out@ =~= start + leaf_rows_list(node@, i as nat));
        }
    }
}

fn push_indent(out: &mut String, depth: usize)
    ensures
        final(out)@ == old(out)@ + indent(depth as nat),
{
    let mut d: usize = 0;
    while d < depth
        invariant
            d <= depth,
            out@ == old(out)@ + indent(d as nat),
        decreases depth - d,
    {
        out.append("  ");
        d = d + 1;
        assert(out@ =~= old(out)@ + indent(d as nat));
    }
}

fn format_tree(node: &FileNode, depth: usize, out: &mut String)
    requires
        totals_fit(node@),
        depth + height(node@) <= usize::MAX,
    ensures
        final(out)@ == old(out)@ + tree_text(node@, depth as nat),
    decreases node,
{
    let ghost start = out@;
    push_indent(out, depth);
    out.append(node.name.as_str());
    out.append(" (");
    let sz = crate::engine::domain::size::size_string(node.total_size());
    out.append(sz.as_str());
    out.append(")\n");
    let ghost mid = out@;
    let mut i: usize = 0;
    while i < node.children.len()
        invariant
            i <= node.children@.len(),
            totals_fit(node@),
            depth + height(node@) <= usize::MAX,
            out@ == mid + tree_list(node@, depth as nat, i as nat),
        decreases node.children@.len() - i,
    {
        proof {
            assert(node@.children[i as int] == node.children@[i as int]@);
            lemma_child_height(node@, i as int);
        }
        format_tree(&node.children[i], depth + 1, out);
        i = i + 1;
        assert(out@ =~= mid + tree_list(node@, depth as nat, i as nat));
    }
    assert(out@ =~= start + tree_text(node@, depth as nat));
}

impl FileNode {
    /// The tree rendered in `fmt`: JSON, a table of the leaves, JSON Lines
    /// (one object per node in pre-order) or an indented tree.
    pub fn format(&self, fmt: OutputFormat) -> (r: Result<String, DomainError>)
        requires
            self@.total() <= u64::MAX,
            height(self@) <= usize::MAX,
        ensures
            r matches Ok(t) && t@ == formatted(self@, fmt),
    {
        proof {
            lemma_totals_fit(self@);
        }
        let mut out = String::new();
        match fmt {
            OutputFormat::Json => node_to_json(self, &mut out),
            OutputFormat::Table => {
                out.append("Name\tSize\tModified\tType\n");
                collect_rows(self, &mut out);
            },
            OutputFormat::Jsonl => collect_jsonl(self, &mut out),
            OutputFormat::Tree => format_tree(self, 0, &mut out),
        }
        assert(out@ =~= formatted(self@, fmt));
        Ok(out)
    }
}

} // verus!
