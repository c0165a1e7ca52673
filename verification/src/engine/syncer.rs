//! A device's side of a sync channel. Publishing a scan result for a root
//! streams a write event for every entry of its tree and keeps the result
//! as the root's tree; merging replays events into the root's tree (an
//! empty tree when the root has none yet) and keeps what comes out.
use vstd::prelude::*;
use crate::domain::sync::{SyncError, SyncEvent, SyncTransport};
use crate::domain::{FileNode, FileNodeV, PathError, ScanResult, Tombstone};
use crate::sums::{lemma_sum_take_all, lemma_sum_take_step, sum_nat};
use crate::engine::sync::{collect_events, empty_result, empty_root, merge_event, merged, tombs_v, TombV};
use crate::gui::lifecycle::{trim_text, trimmed};
use crate::text::str_eq;

verus! {

/// Two results that agree on everything a merge reads or keeps.
pub open spec fn same_result(a: ScanResult, b: ScanResult) -> bool {
    &&& a.root@ == b.root@
    &&& tombs_v(a.tombstones@) == tombs_v(b.tombstones@)
    &&& a.total_size == b.total_size
    &&& a.file_count == b.file_count
    &&& a.scan_duration_ms == b.scan_duration_ms
    &&& a.skipped@ == b.skipped@
}

/// The tree and tombstones after merging `events` in order, each as
/// received by device `dev`.
pub open spec fn replayed(root: FileNodeV, ts: Seq<TombV>, events: Seq<SyncEvent>, dev: Seq<char>) -> (
    FileNodeV,
    Seq<TombV>,
)
    decreases events.len(),
{
    if events.len() == 0 {
        (root, ts)
    } else {
        let before = replayed(root, ts, events.drop_last(), dev);
        let m = merged(before.0, before.1, events.last(), dev);
        (m.0, m.1)
    }
}

/// Merging a history in two pieces, the second into what the first gave,
/// gives what merging it whole gives: events merged one at a time as they
/// arrive end where a replay of the channel's history ends.
pub proof fn law_replay_in_pieces(root: FileNodeV, ts: Seq<TombV>, a: Seq<SyncEvent>, b: Seq<SyncEvent>, dev: Seq<char>)
    ensures
        replayed(root, ts, a + b, dev) == ({
            let m = replayed(root, ts, a, dev);
            replayed(m.0, m.1, b, dev)
        }),
    decreases b.len(),
{
    if b.len() == 0 {
        assert(a + b =~= a);
    } else {
        law_replay_in_pieces(root, ts, a, b.drop_last(), dev);
        assert((a + b).drop_last() =~= a + b.drop_last());
        assert((a + b).last() == b.last());
    }
}

/// The bytes under a node: its own size when it has no children,
/// otherwise the sum over its children.
pub open spec fn leaf_bytes(n: FileNodeV) -> nat
    decreases n, 1nat,
{
    if n.children.len() == 0 {
        n.size as nat
    } else {
        sum_nat(child_leaf_bytes(n))
    }
}

/// The bytes under each direct child, in order.
pub open spec fn child_leaf_bytes(n: FileNodeV) -> Seq<nat>
    decreases n, 0nat,
{
    Seq::new(
        n.children.len(),
        |i: int|
            if 0 <= i < n.children.len() {
                leaf_bytes(n.children[i])
            } else {
                0
            },
    )
}

/// `x` as 64 bits, held at the largest value when it is larger.
pub open spec fn capped(x: nat) -> u64 {
    if x <= u64::MAX {
        x as u64
    } else {
        u64::MAX
    }
}

/// The skipped paths a merge into `start` keeps.
pub open spec fn start_skipped(start: Option<ScanResult>) -> Seq<PathError> {
    match start {
        Some(t) => t.skipped@,
        None => Seq::empty(),
    }
}

/// `r` is what merging `events` into `start` (an empty tree when there is
/// none) gives: the tree and tombstones replayed, the totals taken again
/// from the merged tree (the bytes of its entries without children, and
/// its entry count, each held at the 64-bit maximum), no scan duration (a
/// merge is no scan), and the skipped paths of `start`. Two devices that
/// merge the same events into the same tree hold the same result.
pub open spec fn replayed_result(start: Option<ScanResult>, events: Seq<SyncEvent>, dev: Seq<char>, r: ScanResult) -> bool {
    &&& (r.root@, tombs_v(r.tombstones@)) == replayed(start_of(start).0, start_of(start).1, events, dev)
    &&& r.total_size == capped(leaf_bytes(r.root@))
    &&& r.file_count == capped(r.root@.count())
    &&& r.scan_duration_ms == 0
    &&& r.skipped@ == start_skipped(start)
}

fn add_capped(a: u64, b: u64) -> (r: u64)
    ensures
        r == capped((a + b) as nat),
{
    if a > u64::MAX - b {
        u64::MAX
    } else {
        a + b
    }
}

/// The bytes under `node`, held at the 64-bit maximum.
fn leaf_bytes_capped(node: &FileNode) -> (r: u64)
    ensures
        r == capped(leaf_bytes(node@)),
    decreases node,
{
    let n = node.children.len();
    if n == 0 {
        return node.size;
    }
    let ghost xs = child_leaf_bytes(node@);
    let mut acc: u64 = 0;
    let mut i: usize = 0;
    while i < n
        invariant
            n == node.children@.len(),
            n > 0,
            i <= n,
            xs == child_leaf_bytes(node@),
            acc == capped(sum_nat(xs.take(i as int))),
        decreases n - i,
    {
        assert(node@.children[i as int] == node.children@[i as int]@);
        let c = leaf_bytes_capped(&node.children[i]);
        proof {
            lemma_sum_take_step(xs, i as int);
        }
        acc = add_capped(acc, c);
        i = i + 1;
    }
    proof {
        lemma_sum_take_all(xs);
    }
    acc
}

/// The entry count of the tree at `node`, held at the 64-bit maximum.
fn count_capped(node: &FileNode) -> (r: u64)
    ensures
        r == capped(node@.count()),
    decreases node,
{
    let n = node.children.len();
    let ghost xs = node@.child_counts();
    let mut acc: u64 = 1;
    let mut i: usize = 0;
    assert(xs.take(0) =~= Seq::<nat>::empty());
    while i < n
        invariant
            n == node.children@.len(),
            i <= n,
            xs == node@.child_counts(),
            acc == capped(1 + sum_nat(xs.take(i as int))),
        decreases n - i,
    {
        assert(node@.children[i as int] == node.children@[i as int]@);
        let c = count_capped(&node.children[i]);
        proof {
            lemma_sum_take_step(xs, i as int);
        }
        acc = add_capped(acc, c);
        i = i + 1;
    }
    proof {
        lemma_sum_take_all(xs);
    }
    acc
}

/// Takes the totals of a merged result again from its tree, and clears
/// its scan duration.
fn refresh_totals(tree: &mut ScanResult)
    ensures
        final(tree).root == old(tree).root,
        final(tree).tombstones == old(tree).tombstones,
        final(tree).skipped == old(tree).skipped,
        final(tree).total_size == capped(leaf_bytes(old(tree).root@)),
        final(tree).file_count == capped(old(tree).root@.count()),
        final(tree).scan_duration_ms == 0,
{
    tree.total_size = leaf_bytes_capped(&tree.root);
    tree.file_count = count_capped(&tree.root);
    tree.scan_duration_ms = 0;
}

/// The tree and tombstones a merge into `start` begins with.
pub open spec fn start_of(start: Option<ScanResult>) -> (FileNodeV, Seq<TombV>) {
    match start {
        Some(t) => (t.root@, tombs_v(t.tombstones@)),
        None => (empty_root(), Seq::empty()),
    }
}

/// The result kept under `root`, if any.
pub open spec fn lookup(trees: Seq<(String, ScanResult)>, root: Seq<char>) -> Option<ScanResult> {
    if exists|i: int| 0 <= i < trees.len() && #[trigger] trees[i].0@ == root {
        Some(trees[choose|i: int| 0 <= i < trees.len() && #[trigger] trees[i].0@ == root].1)
    } else {
        None
    }
}

/// No root is kept twice.
pub open spec fn distinct_roots(trees: Seq<(String, ScanResult)>) -> bool {
    forall|i: int, j: int| 0 <= i < j < trees.len() ==> (#[trigger] trees[i]).0@ != (#[trigger] trees[j]).0@
}

proof fn lemma_lookup_at(trees: Seq<(String, ScanResult)>, i: int)
    requires
        distinct_roots(trees),
        0 <= i < trees.len(),
    ensures
        lookup(trees, trees[i].0@) == Some(trees[i].1),
{
    let root = trees[i].0@;
    assert(trees[i].0@ == root);
    let j = choose|j: int| 0 <= j < trees.len() && #[trigger] trees[j].0@ == root;
    if j != i {
        if i < j {
            assert(trees[i].0@ != trees[j].0@);
        } else {
            assert(trees[j].0@ != trees[i].0@);
        }
    }
}

fn copy_tombstones(ts: &Vec<Tombstone>) -> (r: Vec<Tombstone>)
    ensures
        tombs_v(r@) == tombs_v(ts@),
{
    let mut out: Vec<Tombstone> = Vec::new();
    let mut i: usize = 0;
    while i < ts.len()
        invariant
            i <= ts@.len(),
            tombs_v(out@) == tombs_v(ts@).take(i as int),
        decreases ts@.len() - i,
    {
        let t = Tombstone { path: ts[i].path.clone(), mtime: ts[i].mtime, device: ts[i].device.clone() };
        let ghost before = out@;
        out.push(t);
        assert(tombs_v(out@) =~= tombs_v(before).push(tombs_v(ts@)[i as int]));
        assert(tombs_v(ts@).take(i + 1) =~= tombs_v(ts@).take(i as int).push(tombs_v(ts@)[i as int]));
        i = i + 1;
    }
    assert(tombs_v(ts@).take(ts@.len() as int) =~= tombs_v(ts@));
    out
}

/// A copy of a result.
pub fn copy_result(r: &ScanResult) -> (c: ScanResult)
    ensures
        same_result(c, *r),
{
    let skipped = r.skipped.clone();
    assert(skipped@ =~= r.skipped@) by {
        assert forall|i: int| 0 <= i < r.skipped@.len() implies skipped@[i] == r.skipped@[i] by {
            assert(cloned(r.skipped[i], skipped[i]));
        }
    }
    ScanResult {
        root: r.root.clone(),
        total_size: r.total_size,
        file_count: r.file_count,
        scan_duration_ms: r.scan_duration_ms,
        skipped,
        tombstones: copy_tombstones(&r.tombstones),
    }
}

/// Merges `events` in order into `tree`, each as received by device
/// `device_id`. Only the root and the tombstones change.
pub fn replay(tree: &mut ScanResult, events: &[SyncEvent], device_id: &str)
    ensures
        (final(tree).root@, tombs_v(final(tree).tombstones@)) == replayed(
            old(tree).root@,
            tombs_v(old(tree).tombstones@),
            events@,
            device_id@,
        ),
        final(tree).total_size == old(tree).total_size,
        final(tree).file_count == old(tree).file_count,
        final(tree).scan_duration_ms == old(tree).scan_duration_ms,
        final(tree).skipped@ == old(tree).skipped@,
{
    let ghost start = *tree;
    let mut i: usize = 0;
    while i < events.len()
        invariant
            i <= events@.len(),
            (tree.root@, tombs_v(tree.tombstones@)) == replayed(
                start.root@,
                tombs_v(start.tombstones@),
                events@.take(i as int),
                device_id@,
            ),
            tree.total_size == start.total_size,
            tree.file_count == start.file_count,
            tree.scan_duration_ms == start.scan_duration_ms,
            tree.skipped@ == start.skipped@,
        decreases events@.len() - i,
    {
        assert(events@.take(i + 1).drop_last() =~= events@.take(i as int));
        assert(events@.take(i + 1).last() == events@[i as int]);
        merge_event(tree, &events[i], device_id);
        i = i + 1;
    }
    assert(events@.take(events@.len() as int) =~= events@);
}

/// Refuses a blank API key before a transport is built for it: a key that
/// is empty once the white space around it is dropped gives
/// `MissingApiKey`, any other key passes.
pub fn require_api_key(api_key: &str) -> (r: Result<(), SyncError>)
    ensures
        r is Ok <==> trimmed(api_key@).len() > 0,
        r is Err ==> r matches Err(SyncError::MissingApiKey),
{
    let t = trim_text(api_key);
    if t.unicode_len() == 0 {
        Err(SyncError::MissingApiKey)
    } else {
        Ok(())
    }
}

/// Streams scan results for scan roots over a [`SyncTransport`], keeping
/// the tree last published or merged for each root.
pub struct AblySyncer<T: SyncTransport> {
    transport: T,
    device_id: String,
    trees: Vec<(String, ScanResult)>,
}

impl<T: SyncTransport> AblySyncer<T> {
    /// The id of this device.
    pub closed spec fn device(&self) -> Seq<char> {
        self.device_id@
    }

    /// The transport this syncer publishes on and reads from.
    pub closed spec fn channel(&self) -> T {
        self.transport
    }

    /// The tree kept for `root`, if any.
    pub closed spec fn kept(&self, root: Seq<char>) -> Option<ScanResult> {
        lookup(self.trees@, root)
    }

    /// The syncer's well-formedness: no root is kept twice.
    pub closed spec fn wf(&self) -> bool {
        distinct_roots(self.trees@)
    }

    /// A syncer over `transport` for device `device_id`, keeping no tree.
    pub fn with_transport(transport: T, device_id: &str) -> (r: AblySyncer<T>)
        ensures
            r.wf(),
            r.device() == device_id@,
            r.channel() == transport,
            forall|k: Seq<char>| (#[trigger] r.kept(k)) is None,
    {
        AblySyncer { transport, device_id: String::from_str(device_id), trees: Vec::new() }
    }

    /// The transport backing this syncer.
    pub fn transport(&self) -> (r: &T)
        ensures
            *r == self.channel(),
    {
        &self.transport
    }

    fn find(&self, root: &str) -> (r: Option<usize>)
        ensures
            match r {
                Some(i) => i < self.trees@.len() && self.trees@[i as int].0@ == root@,
                None => forall|i: int| 0 <= i < self.trees@.len() ==> (#[trigger] self.trees@[i]).0@ != root@,
            },
    {
        let mut i: usize = 0;
        while i < self.trees.len()
            invariant
                i <= self.trees@.len(),
                forall|j: int| 0 <= j < i ==> (#[trigger] self.trees@[j]).0@ != root@,
            decreases self.trees@.len() - i,
        {
            if str_eq(self.trees[i].0.as_str(), root) {
                return Some(i);
            }
            i = i + 1;
        }
        None
    }

    /// Keeps `result` as the tree of `root`.
    fn keep(&mut self, root: &str, result: ScanResult)
        requires
            old(self).wf(),
        ensures
            final(self).wf(),
            final(self).kept(root@) == Some(result),
            forall|k: Seq<char>| k != root@ ==> #[trigger] final(self).kept(k) == old(self).kept(k),
            final(self).device() == old(self).device(),
            final(self).channel() == old(self).channel(),
    {
        let ghost before = self.trees@;
        match self.find(root) {
            Some(i) => {
                self.trees.set(i, (String::from_str(root), result));
                proof {
                    let after = self.trees@;
                    assert forall|a: int, b: int| 0 <= a < b < after.len() implies (#[trigger] after[a]).0@
                        != (#[trigger] after[b]).0@ by {
                        assert(after[a].0@ == before[a].0@);
                        assert(after[b].0@ == before[b].0@);
                        assert(before[a].0@ != before[b].0@);
                    }
                    lemma_lookup_at(after, i as int);
                    assert forall|k: Seq<char>| k != root@ implies #[trigger] lookup(after, k) == lookup(before, k) by {
                        if exists|j: int| 0 <= j < before.len() && #[trigger] before[j].0@ == k {
                            let j = choose|j: int| 0 <= j < before.len() && #[trigger] before[j].0@ == k;
                            lemma_lookup_at(before, j);
                            assert(after[j] == before[j]);
                            lemma_lookup_at(after, j);
                        } else {
                            assert forall|j: int| 0 <= j < after.len() implies #[trigger] after[j].0@ != k by {
                                if j != i {
                                    assert(after[j] == before[j]);
                                }
                            }
                        }
                    }
                }
            },
            None => {
                self.trees.push((String::from_str(root), result));
                proof {
                    let after = self.trees@;
                    assert forall|a: int, b: int| 0 <= a < b < after.len() implies (#[trigger] after[a]).0@
                        != (#[trigger] after[b]).0@ by {
                        if b < before.len() {
                            assert(after[a] == before[a]);
                            assert(after[b] == before[b]);
                        } else {
                            assert(after[a] == before[a]);
                        }
                    }
                    lemma_lookup_at(after, before.len() as int);
                    assert forall|k: Seq<char>| k != root@ implies #[trigger] lookup(after, k) == lookup(before, k) by {
                        if exists|j: int| 0 <= j < before.len() && #[trigger] before[j].0@ == k {
                            let j = choose|j: int| 0 <= j < before.len() && #[trigger] before[j].0@ == k;
                            lemma_lookup_at(before, j);
                            assert(after[j] == before[j]);
                            lemma_lookup_at(after, j);
                        } else {
                            assert forall|j: int| 0 <= j < after.len() implies #[trigger] after[j].0@ != k by {
                                if j < before.len() {
                                    assert(after[j] == before[j]);
                                }
                            }
                        }
                    }
                }
            },
        }
    }

    /// Drops the tree of `root`.
    fn forget(&mut self, root: &str)
        requires
            old(self).wf(),
        ensures
            final(self).wf(),
            final(self).kept(root@) is None,
            forall|k: Seq<char>| k != root@ ==> #[trigger] final(self).kept(k) == old(self).kept(k),
            final(self).device() == old(self).device(),
            final(self).channel() == old(self).channel(),
    {
        let ghost before = self.trees@;
        match self.find(root) {
            Some(i) => {
                self.trees.remove(i);
                proof {
                    let after = self.trees@;
                    assert(after == before.remove(i as int));
                    assert forall|j: int| 0 <= j < after.len() implies #[trigger] after[j] == if j < i {
                        before[j]
                    } else {
                        before[j + 1]
                    } by {}
                    assert forall|a: int, b: int| 0 <= a < b < after.len() implies (#[trigger] after[a]).0@
                        != (#[trigger] after[b]).0@ by {
                        let a0 = if a < i { a } else { a + 1 };
                        let b0 = if b < i { b } else { b + 1 };
                        assert(after[a] == before[a0]);
                        assert(after[b] == before[b0]);
                        assert(before[a0].0@ != before[b0].0@);
                    }
                    assert forall|j: int| 0 <= j < after.len() implies #[trigger] after[j].0@ != root@ by {
                        let j0 = if j < i { j } else { j + 1 };
                        assert(after[j] == before[j0]);
                        if j0 < i {
                            assert(before[j0].0@ != before[i as int].0@);
                        } else {
                            assert(before[i as int].0@ != before[j0].0@);
                        }
                    }
                    assert forall|k: Seq<char>| k != root@ implies #[trigger] lookup(after, k) == lookup(before, k) by {
                        if exists|j: int| 0 <= j < before.len() && #[trigger] before[j].0@ == k {
                            let j = choose|j: int| 0 <= j < before.len() && #[trigger] before[j].0@ == k;
                            lemma_lookup_at(before, j);
                            assert(j != i);
                            let j1 = if j < i { j } else { j - 1 };
                            assert(after[j1] == before[j]);
                            lemma_lookup_at(after, j1);
                        } else {
                            assert forall|j: int| 0 <= j < after.len() implies #[trigger] after[j].0@ != k by {
                                let j0 = if j < i { j } else { j + 1 };
                                assert(after[j] == before[j0]);
                            }
                        }
                    }
                }
            },
            None => {},
        }
    }

    /// The tree a merge for `root` starts from: a copy of the kept one, or
    /// an empty tree.
    fn start(&self, root: &str) -> (r: ScanResult)
        requires
            self.wf(),
        ensures
            (r.root@, tombs_v(r.tombstones@)) == start_of(self.kept(root@)),
            r.skipped@ == start_skipped(self.kept(root@)),
    {
        match self.find(root) {
            Some(i) => {
                proof {
                    lemma_lookup_at(self.trees@, i as int);
                }
                copy_result(&self.trees[i].1)
            },
            None => {
                let r = empty_result();
                assert(tombs_v(r.tombstones@) =~= Seq::<TombV>::empty());
                assert(r.skipped@ =~= Seq::<PathError>::empty());
                r
            },
        }
    }

    /// Publishes `result` for `root`: keeps it as the root's tree and
    /// streams a write event for every entry of it, root first, in
    /// pre-order. When a publish fails the root's tree is dropped and the
    /// error returned; events already sent stay on the channel.
    pub fn publish_scan(&mut self, root: &str, result: &ScanResult) -> (r: Result<(), SyncError>)
        requires
            old(self).wf(),
        ensures
            final(self).wf(),
            r is Ok ==> (final(self).kept(root@) matches Some(t) && same_result(t, *result)),
            r is Err ==> final(self).kept(root@) is None,
            forall|k: Seq<char>| k != root@ ==> #[trigger] final(self).kept(k) == old(self).kept(k),
            final(self).device() == old(self).device(),
            final(self).channel() == old(self).channel(),
    {
        let mut events: Vec<SyncEvent> = Vec::new();
        collect_events(&result.root, &mut events);
        let kept = copy_result(result);
        self.keep(root, kept);
        let mut i: usize = 0;
        while i < events.len()
            invariant
                i <= events@.len(),
                self.wf(),
                (self.kept(root@) matches Some(t) && same_result(t, *result)),
                forall|k: Seq<char>| k != root@ ==> #[trigger] self.kept(k) == old(self).kept(k),
                self.device() == old(self).device(),
                self.channel() == old(self).channel(),
            decreases events@.len() - i,
        {
            match self.transport.publish(root, &events[i]) {
                Ok(()) => {},
                Err(e) => {
                    self.forget(root);
                    return Err(e);
                },
            }
            i = i + 1;
        }
        Ok(())
    }

    /// Merges `events`, in order, into the tree of `root` (an empty tree
    /// when there is none), keeps the outcome as the root's tree and
    /// returns it.
    pub fn merge_events(&mut self, root: &str, events: &[SyncEvent]) -> (r: ScanResult)
        requires
            old(self).wf(),
        ensures
            replayed_result(old(self).kept(root@), events@, old(self).device(), r),
            final(self).wf(),
            final(self).kept(root@) matches Some(t) && same_result(t, r),
            forall|k: Seq<char>| k != root@ ==> #[trigger] final(self).kept(k) == old(self).kept(k),
            final(self).device() == old(self).device(),
            final(self).channel() == old(self).channel(),
    {
        let mut tree = self.start(root);
        replay(&mut tree, events, self.device_id.as_str());
        refresh_totals(&mut tree);
        let kept = copy_result(&tree);
        self.keep(root, kept);
        tree
    }

    /// Merges the channel's history for `root` into the root's tree (an
    /// empty tree when there is none) and returns the outcome, which is
    /// kept. An error reading the history is returned and changes nothing.
    pub fn merge_history(&mut self, root: &str) -> (r: Result<ScanResult, SyncError>)
        requires
            old(self).wf(),
        ensures
            final(self).wf(),
            final(self).device() == old(self).device(),
            final(self).channel() == old(self).channel(),
            match r {
                Ok(t) => {
                    &&& exists|events: Seq<SyncEvent>| replayed_result(old(self).kept(root@), events, old(self).device(), t)
                    &&& final(self).kept(root@) matches Some(s) && same_result(s, t)
                    &&& forall|k: Seq<char>| k != root@ ==> #[trigger] final(self).kept(k) == old(self).kept(k)
                },
                Err(_) => forall|k: Seq<char>| #[trigger] final(self).kept(k) == old(self).kept(k),
            },
    {
        match self.transport.history(root) {
            Ok(events) => {
                let t = self.merge_events(root, events.as_slice());
                Ok(t)
            },
            Err(e) => Err(e),
        }
    }

    /// Merges one event into the tree of `root` (an empty tree when there is
    /// none), keeps the outcome as the root's tree and returns it.
    pub fn merge_event(&mut self, root: &str, event: &SyncEvent) -> (r: Result<ScanResult, SyncError>)
        requires
            old(self).wf(),
        ensures
            r matches Ok(t) && replayed_result(old(self).kept(root@), seq![*event], old(self).device(), t),
            final(self).wf(),
            (final(self).kept(root@) matches Some(s) && (r matches Ok(t) && same_result(s, t))),
            forall|k: Seq<char>| k != root@ ==> #[trigger] final(self).kept(k) == old(self).kept(k),
            final(self).device() == old(self).device(),
            final(self).channel() == old(self).channel(),
    {
        let mut tree = self.start(root);
        let ghost s0 = start_of(self.kept(root@));
        merge_event(&mut tree, event, self.device_id.as_str());
        proof {
            let evs = seq![*event];
            assert(evs.drop_last() =~= Seq::<SyncEvent>::empty());
            assert(evs.last() == *event);
            assert(replayed(s0.0, s0.1, evs.drop_last(), self.device()) == s0);
        }
        refresh_totals(&mut tree);
        let kept = copy_result(&tree);
        self.keep(root, kept);
        Ok(tree)
    }

    /// Whether `event` would change the tree of `root` (an empty tree when
    /// there is none): the merge's outcome, without keeping it.
    pub fn wins(&self, root: &str, event: &SyncEvent) -> (r: bool)
        requires
            self.wf(),
        ensures
            r == merged(start_of(self.kept(root@)).0, start_of(self.kept(root@)).1, *event, self.device()).2,
    {
        let mut candidate = self.start(root);
        merge_event(&mut candidate, event, self.device_id.as_str())
    }
}

} // verus!
