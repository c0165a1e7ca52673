//! Sums of natural numbers over sequences, with the facts the aggregating
//! loops need (a prefix sum grows by one element per step and never
//! exceeds the whole sum).
use vstd::prelude::*;

verus! {

/// The sum of the numbers in `s`.
pub open spec fn sum_nat(s: Seq<nat>) -> nat
    decreases s.len(),
{
    if s.len() == 0 {
        0
    } else {
        sum_nat(s.drop_last()) + s.last()
    }
}

/// Extending a prefix by one element adds that element to the sum.
pub proof fn lemma_sum_take_step(s: Seq<nat>, i: int)
    requires
        0 <= i < s.len(),
    ensures
        sum_nat(s.take(i + 1)) == sum_nat(s.take(i)) + s[i],
{
    assert(s.take(i + 1).drop_last() =~= s.take(i));
}

/// A prefix sum never exceeds the whole sum.
pub proof fn lemma_sum_prefix_le(s: Seq<nat>, i: int)
    requires
        0 <= i <= s.len(),
    ensures
        sum_nat(s.take(i)) <= sum_nat(s),
    decreases s.len() - i,
{
    if i < s.len() {
        lemma_sum_take_step(s, i);
        lemma_sum_prefix_le(s, i + 1);
    } else {
        assert(s.take(i) =~= s);
    }
}

/// Every element is at most the sum.
pub proof fn lemma_sum_elem_le(s: Seq<nat>, i: int)
    requires
        0 <= i < s.len(),
    ensures
        s[i] <= sum_nat(s),
{
    lemma_sum_take_step(s, i);
    lemma_sum_prefix_le(s, i + 1);
}

/// The whole sequence is its own prefix.
pub proof fn lemma_sum_take_all(s: Seq<nat>)
    ensures
        sum_nat(s.take(s.len() as int)) == sum_nat(s),
{
    assert(s.take(s.len() as int) =~= s);
}

/// The sum of a concatenation.
pub proof fn lemma_sum_concat(a: Seq<nat>, b: Seq<nat>)
    ensures
        sum_nat(a + b) == sum_nat(a) + sum_nat(b),
    decreases b.len(),
{
    if b.len() == 0 {
        assert(a + b =~= a);
    } else {
        assert((a + b).drop_last() =~= a + b.drop_last());
        lemma_sum_concat(a, b.drop_last());
    }
}

/// Removing one element takes it off the sum.
pub proof fn lemma_sum_remove(s: Seq<nat>, j: int)
    requires
        0 <= j < s.len(),
    ensures
        sum_nat(s) == sum_nat(s.remove(j)) + s[j],
{
    let one = seq![s[j]];
    assert(one.drop_last() =~= Seq::<nat>::empty());
    assert(sum_nat(one.drop_last()) == 0);
    assert(sum_nat(one) == s[j]);
    assert(s =~= s.take(j) + one + s.skip(j + 1));
    assert(s.remove(j) =~= s.take(j) + s.skip(j + 1));
    lemma_sum_concat(s.take(j) + one, s.skip(j + 1));
    lemma_sum_concat(s.take(j), one);
    lemma_sum_concat(s.take(j), s.skip(j + 1));
}

/// Rearranging a sequence by a one-to-one map of positions keeps its sum.
pub proof fn lemma_sum_reorder(old: Seq<nat>, new: Seq<nat>, p: Seq<int>)
    requires
        crate::sorting::is_perm(p, old.len()),
        new.len() == old.len(),
        forall|k: int| 0 <= k < new.len() ==> new[k] == old[#[trigger] p[k]],
    ensures
        sum_nat(new) == sum_nat(old),
    decreases old.len(),
{
    let n = old.len();
    if n > 0 {
        let j = p[n - 1];
        let old2 = old.remove(j);
        let new2 = new.drop_last();
        let p2 = Seq::new((n - 1) as nat, |k: int| if p[k] < j { p[k] } else { p[k] - 1 });
        assert forall|k: int| 0 <= k < n - 1 implies 0 <= #[trigger] p2[k] < n - 1 by {
            assert(p[k] != p[n - 1]);
        }
        assert forall|k1: int, k2: int| 0 <= k1 < k2 < n - 1 implies #[trigger] p2[k1] != #[trigger] p2[k2] by {
            assert(p[k1] != p[k2]);
            assert(p[k1] != j && p[k2] != j);
        }
        assert forall|k: int| 0 <= k < new2.len() implies new2[k] == old2[#[trigger] p2[k]] by {
            assert(p[k] != j);
            assert(new2[k] == old[p[k]]);
        }
        lemma_sum_reorder(old2, new2, p2);
        lemma_sum_remove(old, j);
    }
}

} // verus!
