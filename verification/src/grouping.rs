//! Grouping of positions by key: one group per distinct key, groups in
//! order of first appearance, positions increasing within a group.
use vstd::prelude::*;
use crate::text::str_eq;

verus! {

/// The distinct keys of `keys`, in order of first appearance.
pub open spec fn distinct_keys<K>(keys: Seq<K>) -> Seq<K>
    decreases keys.len(),
{
    if keys.len() == 0 {
        Seq::empty()
    } else {
        let d = distinct_keys(keys.drop_last());
        if d.contains(keys.last()) {
            d
        } else {
            d.push(keys.last())
        }
    }
}

/// The positions of `keys` that hold `k`, increasing.
pub open spec fn positions_of<K>(keys: Seq<K>, k: K) -> Seq<int>
    decreases keys.len(),
{
    if keys.len() == 0 {
        Seq::empty()
    } else {
        let p = positions_of(keys.drop_last(), k);
        if keys.last() == k {
            p.push(keys.len() - 1)
        } else {
            p
        }
    }
}

/// One group of positions per distinct key, in order of first appearance.
pub open spec fn groups_of<K>(keys: Seq<K>) -> Seq<Seq<int>> {
    distinct_keys(keys).map_values(|k: K| positions_of(keys, k))
}

/// A vector of positions as integers.
pub open spec fn ints(v: Seq<usize>) -> Seq<int> {
    v.map_values(|x: usize| x as int)
}

/// Vectors of positions as sequences of integers.
pub open spec fn int_groups(gs: Seq<Vec<usize>>) -> Seq<Seq<int>> {
    gs.map_values(|g: Vec<usize>| ints(g@))
}

/// A key occurs among the distinct keys exactly when it occurs at all.
pub proof fn lemma_distinct_contains<K>(keys: Seq<K>, k: K)
    ensures
        distinct_keys(keys).contains(k) <==> keys.contains(k),
    decreases keys.len(),
{
    if keys.len() > 0 {
        let init = keys.drop_last();
        let x = keys.last();
        let d = distinct_keys(init);
        lemma_distinct_contains(init, k);
        if keys.contains(k) {
            let w = choose|w: int| 0 <= w < keys.len() && keys[w] == k;
            if w < init.len() {
                assert(init[w] == k);
            }
        }
        if init.contains(k) {
            let w = choose|w: int| 0 <= w < init.len() && init[w] == k;
            assert(keys[w] == k);
        }
        if x == k {
            assert(keys[keys.len() - 1] == k);
        }
        if !d.contains(x) {
            let dp = d.push(x);
            if dp.contains(k) {
                let w = choose|w: int| 0 <= w < dp.len() && dp[w] == k;
                if w < d.len() {
                    assert(d[w] == k);
                }
            }
            if d.contains(k) {
                let w = choose|w: int| 0 <= w < d.len() && d[w] == k;
                assert(dp[w] == k);
            }
            if x == k {
                assert(dp[d.len() as int] == k);
            }
        }
    }
}

/// The keys in `distinct_keys` are pairwise different.
pub proof fn lemma_distinct_unique<K>(keys: Seq<K>)
    ensures
        forall|a: int, b: int|
            0 <= a < b < distinct_keys(keys).len() ==> distinct_keys(keys)[a] != distinct_keys(
                keys,
            )[b],
    decreases keys.len(),
{
    if keys.len() > 0 {
        let init = keys.drop_last();
        let x = keys.last();
        let d = distinct_keys(init);
        lemma_distinct_unique(init);
        if !d.contains(x) {
            assert forall|a: int| 0 <= a < d.len() implies d[a] != x by {}
            assert forall|a: int, b: int|
                0 <= a < b < d.len() + 1 implies #[trigger] d.push(x)[a] != #[trigger] d.push(x)[b] by {
                if b == d.len() {
                    assert(d.push(x)[b] == x);
                }
            }
        }
    }
}

/// A key that does not occur has no positions.
pub proof fn lemma_positions_absent<K>(keys: Seq<K>, k: K)
    requires
        !keys.contains(k),
    ensures
        positions_of(keys, k) == Seq::<int>::empty(),
    decreases keys.len(),
{
    if keys.len() > 0 {
        let init = keys.drop_last();
        if init.contains(k) {
            let w = choose|w: int| 0 <= w < init.len() && init[w] == k;
            assert(keys[w] == k);
        }
        lemma_positions_absent(init, k);
        assert(keys[keys.len() - 1] != k);
    }
}

/// A key that occurs has at least one position.
pub proof fn lemma_positions_present<K>(keys: Seq<K>, k: K)
    requires
        keys.contains(k),
    ensures
        positions_of(keys, k).len() > 0,
    decreases keys.len(),
{
    let init = keys.drop_last();
    if keys.last() != k {
        let w = choose|w: int| 0 <= w < keys.len() && keys[w] == k;
        assert(init[w] == k);
        lemma_positions_present(init, k);
    }
}

/// Positions are within bounds and hold their key.
pub proof fn lemma_positions_hold<K>(keys: Seq<K>, k: K)
    ensures
        forall|j: int|
            0 <= j < positions_of(keys, k).len() ==> 0 <= #[trigger] positions_of(keys, k)[j]
                < keys.len() && keys[positions_of(keys, k)[j]] == k,
    decreases keys.len(),
{
    if keys.len() > 0 {
        let init = keys.drop_last();
        lemma_positions_hold(init, k);
        assert forall|j: int| 0 <= j < positions_of(keys, k).len() implies 0
            <= #[trigger] positions_of(keys, k)[j] < keys.len() && keys[positions_of(keys, k)[j]]
            == k by {
            let p = positions_of(init, k);
            if j < p.len() {
                assert(positions_of(keys, k)[j] == p[j]);
                assert(keys[p[j]] == init[p[j]]);
            }
        }
    }
}

/// The size of all groups together is the number of keys.
pub open spec fn total_len(gs: Seq<Seq<int>>) -> nat
    decreases gs.len(),
{
    if gs.len() == 0 {
        0
    } else {
        total_len(gs.drop_last()) + gs.last().len()
    }
}

/// A prefix of the groups holds at most as many positions as all of them,
/// and one group more adds that group's size.
pub proof fn lemma_total_len_prefix(gs: Seq<Seq<int>>, g: int)
    requires
        0 <= g < gs.len(),
    ensures
        total_len(gs.take(g + 1)) == total_len(gs.take(g)) + gs[g].len(),
        total_len(gs.take(g + 1)) <= total_len(gs),
    decreases gs.len() - g,
{
    assert(gs.take(g + 1).drop_last() =~= gs.take(g));
    if g + 1 < gs.len() {
        lemma_total_len_prefix(gs, g + 1);
    } else {
        assert(gs.take(g + 1) =~= gs);
    }
}

proof fn lemma_total_len_update(gs: Seq<Seq<int>>, g: int, x: int)
    requires
        0 <= g < gs.len(),
    ensures
        total_len(gs.update(g, gs[g].push(x))) == total_len(gs) + 1,
    decreases gs.len(),
{
    let u = gs.update(g, gs[g].push(x));
    if g < gs.len() - 1 {
        assert(u.drop_last() =~= gs.drop_last().update(g, gs[g].push(x)));
        lemma_total_len_update(gs.drop_last(), g, x);
    } else {
        assert(u.drop_last() =~= gs.drop_last());
    }
}

/// Together the groups hold one position per key.
pub proof fn lemma_groups_total<K>(keys: Seq<K>)
    ensures
        total_len(groups_of(keys)) == keys.len(),
    decreases keys.len(),
{
    if keys.len() > 0 {
        let init = keys.drop_last();
        let x = keys.last();
        let d0 = distinct_keys(init);
        lemma_groups_total(init);
        let g0 = groups_of(init);
        let g1 = groups_of(keys);
        if d0.contains(x) {
            let w = choose|w: int| 0 <= w < d0.len() && d0[w] == x;
            lemma_distinct_unique(init);
            assert forall|h: int| 0 <= h < g1.len() implies #[trigger] g1[h] == (if h == w {
                g0[h].push(keys.len() - 1)
            } else {
                g0[h]
            }) by {
                assert(g1[h] == positions_of(keys, d0[h]));
            }
            assert(g1 =~= g0.update(w, g0[w].push(keys.len() - 1)));
            lemma_total_len_update(g0, w, keys.len() - 1);
        } else {
            lemma_distinct_contains(init, x);
            lemma_positions_absent(init, x);
            assert forall|h: int| 0 <= h < d0.len() implies #[trigger] g1[h] == g0[h] by {
                assert(d0[h] != x);
            }
            assert(g1.drop_last() =~= g0);
            assert(g1.last() =~= seq![keys.len() - 1]);
        }
    }
}

/// The position of `k` among `keys`, if it occurs.
fn find_u64(keys: &Vec<u64>, k: u64) -> (r: Option<usize>)
    ensures
        match r {
            Some(g) => g < keys@.len() && keys@[g as int] == k,
            None => !keys@.contains(k),
        },
{
    let mut g: usize = 0;
    while g < keys.len()
        invariant
            g <= keys@.len(),
            forall|h: int| 0 <= h < g ==> keys@[h] != k,
        decreases keys@.len() - g,
    {
        if keys[g] == k {
            return Some(g);
        }
        g = g + 1;
    }
    None
}

/// The position of `k` among `keys`, if it occurs.
fn find_text(keys: &Vec<String>, k: &String) -> (r: Option<usize>)
    ensures
        match r {
            Some(g) => g < keys@.len() && keys@[g as int]@ == k@,
            None => forall|h: int| 0 <= h < keys@.len() ==> (#[trigger] keys@[h])@ != k@,
        },
{
    let mut g: usize = 0;
    while g < keys.len()
        invariant
            g <= keys@.len(),
            forall|h: int| 0 <= h < g ==> (#[trigger] keys@[h])@ != k@,
        decreases keys@.len() - g,
    {
        if str_eq(keys[g].as_str(), k.as_str()) {
            return Some(g);
        }
        g = g + 1;
    }
    None
}

/// One step of grouping: the key at position `i` joins the group of an
/// existing key, or opens a new group.
proof fn lemma_group_step<K>(keys: Seq<K>, i: int)
    requires
        0 <= i < keys.len(),
    ensures
        ({
            let before = keys.take(i);
            let after = keys.take(i + 1);
            let x = keys[i];
            &&& distinct_keys(before).contains(x) ==> distinct_keys(after) == distinct_keys(before)
            &&& !distinct_keys(before).contains(x) ==> distinct_keys(after) == distinct_keys(
                before,
            ).push(x)
            &&& forall|k: K|
                #[trigger] positions_of(after, k) == if k == x {
                    positions_of(before, k).push(i)
                } else {
                    positions_of(before, k)
                }
            &&& !distinct_keys(before).contains(x) ==> positions_of(before, x) == Seq::<
                int,
            >::empty()
        }),
{
    let before = keys.take(i);
    let after = keys.take(i + 1);
    assert(after.drop_last() =~= before);
    if !distinct_keys(before).contains(keys[i]) {
        lemma_distinct_contains(before, keys[i]);
        lemma_positions_absent(before, keys[i]);
    }
}

/// Positions grouped by equal sizes.
pub fn group_u64(keys: &Vec<u64>) -> (r: Vec<Vec<usize>>)
    ensures
        int_groups(r@) == groups_of(keys@),
{
    let mut dk: Vec<u64> = Vec::new();
    let mut gs: Vec<Vec<usize>> = Vec::new();
    let mut i: usize = 0;
    while i < keys.len()
        invariant
            i <= keys@.len(),
            dk@ == distinct_keys(keys@.take(i as int)),
            gs@.len() == dk@.len(),
            forall|g: int|
                0 <= g < gs@.len() ==> ints(#[trigger] gs@[g]@) == positions_of(
                    keys@.take(i as int),
                    dk@[g],
                ),
        decreases keys@.len() - i,
    {
        let k = keys[i];
        proof {
            lemma_group_step(keys@, i as int);
        }
        let ghost old_gs = gs@;
        match find_u64(&dk, k) {
            Some(g) => {
                assert(distinct_keys(keys@.take(i as int)).contains(k)) by {
                    assert(dk@[g as int] == k);
                }
                let mut entry = gs.remove(g);
                entry.push(i);
                gs.insert(g, entry);
                proof {
                    lemma_distinct_unique(keys@.take(i as int));
                    assert forall|h: int| 0 <= h < gs@.len() implies ints(#[trigger] gs@[h]@)
                        == positions_of(keys@.take(i + 1), dk@[h]) by {
                        if h == g {
                            assert(ints(gs@[h]@) =~= ints(old_gs[h]@).push(i as int));
                        } else {
                            assert(gs@[h] == old_gs[h]);
                            assert(dk@[h] != k);
                        }
                    }
                }
            },
            None => {
                let mut entry: Vec<usize> = Vec::new();
                entry.push(i);
                gs.push(entry);
                dk.push(k);
                proof {
                    assert forall|h: int| 0 <= h < gs@.len() implies ints(#[trigger] gs@[h]@)
                        == positions_of(keys@.take(i + 1), dk@[h]) by {
                        if h < old_gs.len() {
                            assert(gs@[h] == old_gs[h]);
                            assert(dk@[h] != k);
                        } else {
                            assert(ints(gs@[h]@) =~= seq![i as int]);
                            assert(seq![i as int] =~= Seq::<int>::empty().push(i as int));
                        }
                    }
                }
            },
        }
        i = i + 1;
    }
    assert(keys@.take(keys@.len() as int) =~= keys@);
    assert(int_groups(gs@) =~= groups_of(keys@));
    gs
}

/// The characters of texts.
pub open spec fn texts(v: Seq<String>) -> Seq<Seq<char>> {
    v.map_values(|s: String| s@)
}

/// Positions grouped by equal texts.
pub fn group_text(keys: &Vec<String>) -> (r: Vec<Vec<usize>>)
    ensures
        int_groups(r@) == groups_of(texts(keys@)),
{
    let ghost ks = texts(keys@);
    let mut dk: Vec<String> = Vec::new();
    let mut gs: Vec<Vec<usize>> = Vec::new();
    let mut i: usize = 0;
    while i < keys.len()
        invariant
            i <= keys@.len(),
            ks == texts(keys@),
            texts(dk@) == distinct_keys(ks.take(i as int)),
            gs@.len() == dk@.len(),
            forall|g: int|
                0 <= g < gs@.len() ==> ints(#[trigger] gs@[g]@) == positions_of(
                    ks.take(i as int),
                    dk@[g]@,
                ),
        decreases keys@.len() - i,
    {
        let k = keys[i].clone();
        proof {
            lemma_group_step(ks, i as int);
            assert(ks[i as int] == k@);
        }
        let ghost old_gs = gs@;
        let ghost old_dk = texts(dk@);
        match find_text(&dk, &k) {
            Some(g) => {
                assert(distinct_keys(ks.take(i as int)).contains(k@)) by {
                    assert(texts(dk@)[g as int] == k@);
                }
                let mut entry = gs.remove(g);
                entry.push(i);
                gs.insert(g, entry);
                proof {
                    lemma_distinct_unique(ks.take(i as int));
                    assert forall|h: int| 0 <= h < gs@.len() implies ints(#[trigger] gs@[h]@)
                        == positions_of(ks.take(i + 1), dk@[h]@) by {
                        assert(texts(dk@)[h] == dk@[h]@);
                        if h == g {
                            assert(ints(gs@[h]@) =~= ints(old_gs[h]@).push(i as int));
                        } else {
                            assert(gs@[h] == old_gs[h]);
                            assert(texts(dk@)[h] != texts(dk@)[g as int]);
                        }
                    }
                }
            },
            None => {
                proof {
                    assert forall|h: int| 0 <= h < old_dk.len() implies old_dk[h] != k@ by {
                        assert(old_dk[h] == dk@[h]@);
                    }
                    assert(!old_dk.contains(k@));
                }
                let mut entry: Vec<usize> = Vec::new();
                entry.push(i);
                gs.push(entry);
                dk.push(k);
                proof {
                    assert(texts(dk@) =~= old_dk.push(k@));
                    assert forall|h: int| 0 <= h < gs@.len() implies ints(#[trigger] gs@[h]@)
                        == positions_of(ks.take(i + 1), dk@[h]@) by {
                        if h < old_gs.len() {
                            assert(gs@[h] == old_gs[h]);
                            assert(old_dk[h] == dk@[h]@);
                            assert(dk@[h]@ != k@);
                        } else {
                            assert(ints(gs@[h]@) =~= seq![i as int]);
                            assert(seq![i as int] =~= Seq::<int>::empty().push(i as int));
                        }
                    }
                }
            },
        }
        i = i + 1;
    }
    assert(ks.take(keys@.len() as int) =~= ks);
    proof {
        assert forall|g: int| 0 <= g < gs@.len() implies #[trigger] int_groups(gs@)[g] == groups_of(
            ks,
        )[g] by {
            assert(texts(dk@)[g] == dk@[g]@);
        }
    }
    assert(int_groups(gs@) =~= groups_of(ks));
    gs
}

} // verus!
