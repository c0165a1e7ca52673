//! Stable sorting by precomputed keys.
//!
//! Every ordering in the crate (by size, by name, by modification time, by
//! type, ascending or descending) is a stable sort on one key per item. The
//! key is either a number or a text compared character by character, which
//! is the order `str::cmp` gives (UTF-8 byte order and code-point order
//! agree). A descending sort compares with the arguments swapped, so items
//! with equal keys keep their original relative order in both directions.
use vstd::prelude::*;

verus! {

/// A sort key: a number, or a text compared lexicographically.
pub enum SortKey {
    Num(u64),
    Text(Vec<char>),
}

/// The mathematical value of a [`SortKey`].
pub enum KeyV {
    Num(nat),
    Text(Seq<char>),
}

impl SortKey {
    pub open spec fn key_view(&self) -> KeyV {
        match self {
            SortKey::Num(n) => KeyV::Num(*n as nat),
            SortKey::Text(t) => KeyV::Text(t@),
        }
    }
}

/// The key values of a sequence of keys.
pub open spec fn key_views(ks: Seq<SortKey>) -> Seq<KeyV> {
    ks.map_values(|k: SortKey| k.key_view())
}

/// Lexicographic order on character sequences by code point; a proper
/// prefix comes first.
pub open spec fn lex_le(a: Seq<char>, b: Seq<char>) -> bool
    decreases a.len(),
{
    if a.len() == 0 {
        true
    } else if b.len() == 0 {
        false
    } else if a[0] < b[0] {
        true
    } else if a[0] > b[0] {
        false
    } else {
        lex_le(a.drop_first(), b.drop_first())
    }
}

/// Ascending order on keys: numbers by value, texts lexicographically.
pub open spec fn key_le_asc(a: KeyV, b: KeyV) -> bool {
    match (a, b) {
        (KeyV::Num(x), KeyV::Num(y)) => x <= y,
        (KeyV::Text(s), KeyV::Text(t)) => lex_le(s, t),
        (KeyV::Num(_), KeyV::Text(_)) => true,
        (KeyV::Text(_), KeyV::Num(_)) => false,
    }
}

/// `a` may stand before `b` in a sort in the given direction.
pub open spec fn key_le(a: KeyV, b: KeyV, desc: bool) -> bool {
    if desc {
        key_le_asc(b, a)
    } else {
        key_le_asc(a, b)
    }
}

pub proof fn lemma_lex_total(a: Seq<char>, b: Seq<char>)
    ensures
        lex_le(a, b) || lex_le(b, a),
    decreases a.len(),
{
    if a.len() > 0 && b.len() > 0 && a[0] == b[0] {
        lemma_lex_total(a.drop_first(), b.drop_first());
    }
}

pub proof fn lemma_lex_trans(a: Seq<char>, b: Seq<char>, c: Seq<char>)
    requires
        lex_le(a, b),
        lex_le(b, c),
    ensures
        lex_le(a, c),
    decreases a.len(),
{
    if a.len() > 0 && b.len() > 0 && c.len() > 0 && a[0] == b[0] && b[0] == c[0] {
        lemma_lex_trans(a.drop_first(), b.drop_first(), c.drop_first());
    }
}

pub proof fn lemma_lex_antisym(a: Seq<char>, b: Seq<char>)
    requires
        lex_le(a, b),
        lex_le(b, a),
    ensures
        a == b,
    decreases a.len(),
{
    if a.len() > 0 && b.len() > 0 {
        lemma_lex_antisym(a.drop_first(), b.drop_first());
        assert(a =~= seq![a[0]] + a.drop_first());
        assert(b =~= seq![b[0]] + b.drop_first());
    }
}

pub proof fn lemma_key_total(a: KeyV, b: KeyV, desc: bool)
    ensures
        key_le(a, b, desc) || key_le(b, a, desc),
{
    match (a, b) {
        (KeyV::Text(s), KeyV::Text(t)) => lemma_lex_total(s, t),
        _ => {},
    }
}

pub proof fn lemma_key_trans(a: KeyV, b: KeyV, c: KeyV, desc: bool)
    requires
        key_le(a, b, desc),
        key_le(b, c, desc),
    ensures
        key_le(a, c, desc),
{
    match (a, b, c) {
        (KeyV::Text(s), KeyV::Text(t), KeyV::Text(u)) => {
            if desc {
                lemma_lex_trans(u, t, s);
            } else {
                lemma_lex_trans(s, t, u);
            }
        },
        _ => {},
    }
}

/// Exec form of [`lex_le`].
pub fn lex_le_exec(a: &Vec<char>, b: &Vec<char>) -> (r: bool)
    ensures
        r == lex_le(a@, b@),
{
    let mut i: usize = 0;
    assert(a@.skip(0) =~= a@);
    assert(b@.skip(0) =~= b@);
    while i < a.len() && i < b.len()
        invariant
            i <= a@.len(),
            i <= b@.len(),
            forall|j: int| 0 <= j < i ==> a@[j] == b@[j],
            lex_le(a@, b@) == lex_le(a@.skip(i as int), b@.skip(i as int)),
        decreases a@.len() - i,
    {
        let x = a[i];
        let y = b[i];
        if x < y {
            assert(a@.skip(i as int)[0] == x);
            assert(b@.skip(i as int)[0] == y);
            return true;
        }
        if x > y {
            assert(a@.skip(i as int)[0] == x);
            assert(b@.skip(i as int)[0] == y);
            return false;
        }
        assert(a@.skip(i as int)[0] == x);
        assert(b@.skip(i as int)[0] == y);
        assert(a@.skip(i as int).drop_first() =~= a@.skip(i + 1));
        assert(b@.skip(i as int).drop_first() =~= b@.skip(i + 1));
        i = i + 1;
    }
    if i == a.len() {
        assert(a@.skip(i as int).len() == 0);
        true
    } else {
        assert(b@.skip(i as int).len() == 0);
        false
    }
}

/// Exec form of [`key_le`].
pub fn key_le_exec(a: &SortKey, b: &SortKey, desc: bool) -> (r: bool)
    ensures
        r == key_le(a.key_view(), b.key_view(), desc),
{
    let (x, y) = if desc {
        (b, a)
    } else {
        (a, b)
    };
    match (x, y) {
        (SortKey::Num(m), SortKey::Num(n)) => *m <= *n,
        (SortKey::Text(s), SortKey::Text(t)) => lex_le_exec(s, t),
        (SortKey::Num(_), SortKey::Text(_)) => true,
        (SortKey::Text(_), SortKey::Num(_)) => false,
    }
}

/// `p` maps the positions of a sequence of length `n` one-to-one onto
/// the positions `0..n`.
pub open spec fn is_perm(p: Seq<int>, n: nat) -> bool {
    &&& p.len() == n
    &&& forall|k: int| 0 <= k < n ==> 0 <= #[trigger] p[k] < n
    &&& forall|k1: int, k2: int| 0 <= k1 < k2 < n ==> #[trigger] p[k1] != #[trigger] p[k2]
}

/// `new` holds the items of `old` rearranged by `p`: `new[k] == old[p[k]]`.
pub open spec fn reorders<T>(old: Seq<T>, new: Seq<T>, p: Seq<int>) -> bool {
    &&& new.len() == old.len()
    &&& is_perm(p, old.len())
    &&& forall|k: int| 0 <= k < new.len() ==> #[trigger] new[k] == old[p[k]]
}

/// The rearrangement `p` of items with keys `keys` is the stable sort in
/// the given direction: keys are in order, and items with equal keys keep
/// their original relative order.
pub open spec fn stable_by_keys(keys: Seq<KeyV>, desc: bool, p: Seq<int>) -> bool {
    forall|k1: int, k2: int|
        0 <= k1 < k2 < p.len() ==> {
            &&& key_le(keys[#[trigger] p[k1]], keys[#[trigger] p[k2]], desc)
            &&& (key_le(keys[p[k2]], keys[p[k1]], desc) ==> p[k1] < p[k2])
        }
}

/// `new` is the stable sort of `old` by `keys` (one key per item of `old`).
pub open spec fn stably_sorted<T>(old: Seq<T>, keys: Seq<KeyV>, desc: bool, new: Seq<T>) -> bool {
    exists|p: Seq<int>| reorders(old, new, p) && stable_by_keys(keys, desc, p)
}

/// Sorts `items` stably by `keys` (the key of `items[i]` is `keys[i]`).
pub fn sort_by_keys<T>(items: Vec<T>, keys: Vec<SortKey>, desc: bool) -> (res: (
    Vec<T>,
    Ghost<Seq<int>>,
))
    requires
        items@.len() == keys@.len(),
    ensures
        reorders(items@, res.0@, res.1@),
        stable_by_keys(key_views(keys@), desc, res.1@),
        stably_sorted(items@, key_views(keys@), desc, res.0@),
{
    let ghost orig = items@;
    let ghost kv = key_views(keys@);
    let ghost n = orig.len();
    let len0 = items.len();
    let mut src = items;
    let mut src_keys = keys;
    let mut out: Vec<T> = Vec::new();
    let mut out_keys: Vec<SortKey> = Vec::new();
    let ghost mut p: Seq<int> = Seq::empty();
    let mut c: usize = 0;
    while src.len() > 0
        invariant
            n == orig.len(),
            n == len0,
            kv.len() == n,
            c <= n,
            src@ == orig.skip(c as int),
            key_views(src_keys@) == kv.skip(c as int),
            out@.len() == c,
            out_keys@.len() == c,
            p.len() == c,
            forall|k: int| 0 <= k < c ==> 0 <= #[trigger] p[k] < c,
            forall|k1: int, k2: int| 0 <= k1 < k2 < c ==> #[trigger] p[k1] != #[trigger] p[k2],
            forall|k: int| 0 <= k < c ==> #[trigger] out@[k] == orig[p[k]],
            forall|k: int| 0 <= k < c ==> (#[trigger] out_keys@[k]).key_view() == kv[p[k]],
            forall|k1: int, k2: int|
                0 <= k1 < k2 < c ==> {
                    &&& key_le(kv[#[trigger] p[k1]], kv[#[trigger] p[k2]], desc)
                    &&& (key_le(kv[p[k2]], kv[p[k1]], desc) ==> p[k1] < p[k2])
                },
        decreases n - c,
    {
        assert(src@.len() == n - c);
        let ghost keys_before = src_keys@;
        assert(key_views(keys_before).len() == keys_before.len());
        let x = src.remove(0);
        let kx = src_keys.remove(0);
        assert(x == orig[c as int]);
        assert(kx.key_view() == kv[c as int]) by {
            assert(key_views(keys_before)[0] == kx.key_view());
        }
        assert(src@ =~= orig.skip(c + 1));
        assert forall|j: int| 0 <= j < src_keys@.len() implies key_views(src_keys@)[j] == kv.skip(c + 1)[j] by {
            assert(src_keys@[j] == keys_before[j + 1]);
            assert(key_views(keys_before)[j + 1] == kv.skip(c as int)[j + 1]);
        }
        assert(key_views(src_keys@) =~= kv.skip(c + 1));
        let mut pos: usize = 0;
        while pos < out.len() && key_le_exec(&out_keys[pos], &kx, desc)
            invariant
                pos <= out@.len(),
                out_keys@.len() == out@.len(),
                forall|j: int| 0 <= j < pos ==> key_le((#[trigger] out_keys@[j]).key_view(), kx.key_view(), desc),
            decreases out@.len() - pos,
        {
            pos = pos + 1;
        }
        let ghost old_out = out@;
        let ghost old_keys = out_keys@;
        let ghost old_p = p;
        let ghost xv = kx.key_view();
        proof {
            if pos < c {
                lemma_key_total(old_keys[pos as int].key_view(), xv, desc);
            }
        }
        out.insert(pos, x);
        out_keys.insert(pos, kx);
        proof {
            p = old_p.insert(pos as int, c as int);
            assert forall|k: int| 0 <= k < c + 1 implies 0 <= #[trigger] p[k] < c + 1 by {
                if k < pos {
                    assert(p[k] == old_p[k]);
                } else if k > pos {
                    assert(p[k] == old_p[k - 1]);
                }
            }
            assert forall|k1: int, k2: int| 0 <= k1 < k2 < c + 1 implies #[trigger] p[k1] != #[trigger] p[k2] by {
                if k1 < pos && k2 < pos {
                    assert(p[k1] == old_p[k1] && p[k2] == old_p[k2]);
                } else if k1 < pos && k2 > pos {
                    assert(p[k1] == old_p[k1] && p[k2] == old_p[k2 - 1]);
                } else if k1 > pos {
                    assert(p[k1] == old_p[k1 - 1] && p[k2] == old_p[k2 - 1]);
                } else if k1 == pos {
                    assert(p[k2] == old_p[k2 - 1]);
                } else {
                    assert(p[k1] == old_p[k1]);
                }
            }
            assert forall|k: int| 0 <= k < c + 1 implies #[trigger] out@[k] == orig[p[k]] by {
                if k < pos {
                    assert(out@[k] == old_out[k]);
                    assert(p[k] == old_p[k]);
                } else if k > pos {
                    assert(out@[k] == old_out[k - 1]);
                    assert(p[k] == old_p[k - 1]);
                }
            }
            assert forall|k: int| 0 <= k < c + 1 implies (#[trigger] out_keys@[k]).key_view() == kv[p[k]] by {
                if k < pos {
                    assert(out_keys@[k] == old_keys[k]);
                    assert(p[k] == old_p[k]);
                } else if k > pos {
                    assert(out_keys@[k] == old_keys[k - 1]);
                    assert(p[k] == old_p[k - 1]);
                }
            }
            assert forall|k1: int, k2: int| 0 <= k1 < k2 < c + 1 implies {
                &&& key_le(kv[#[trigger] p[k1]], kv[#[trigger] p[k2]], desc)
                &&& (key_le(kv[p[k2]], kv[p[k1]], desc) ==> p[k1] < p[k2])
            } by {
                if k1 < pos && k2 < pos {
                    assert(p[k1] == old_p[k1] && p[k2] == old_p[k2]);
                } else if k1 > pos {
                    assert(p[k1] == old_p[k1 - 1] && p[k2] == old_p[k2 - 1]);
                } else if k1 < pos && k2 > pos {
                    assert(p[k1] == old_p[k1] && p[k2] == old_p[k2 - 1]);
                } else if k1 < pos && k2 == pos {
                    assert(p[k1] == old_p[k1]);
                    assert(old_keys[k1].key_view() == kv[old_p[k1]]);
                    assert(key_le(old_keys[k1].key_view(), xv, desc));
                } else {
                    // k1 == pos, k2 > pos: x is strictly before old_out[pos],
                    // which is at or before old_out[k2 - 1].
                    assert(p[k2] == old_p[k2 - 1]);
                    let a = kv[old_p[pos as int]];
                    let b = kv[old_p[k2 - 1]];
                    assert(old_keys[pos as int].key_view() == a);
                    assert(!key_le(a, xv, desc));
                    assert(key_le(xv, a, desc));
                    if k2 - 1 > pos {
                        assert(key_le(a, b, desc));
                        lemma_key_trans(xv, a, b, desc);
                        if key_le(b, xv, desc) {
                            lemma_key_trans(a, b, xv, desc);
                        }
                    }
                }
            }
        }
        c = c + 1;
    }
    proof {
        assert(orig.skip(c as int).len() == 0);
        assert(reorders(orig, out@, p));
        assert(stable_by_keys(kv, desc, p));
    }
    (out, Ghost(p))
}

} // verus!
