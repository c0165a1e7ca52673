//! Exact rendering of byte counts the way the binary-unit size formatters
//! print them: the count is first rounded to the nearest value a 64-bit
//! float can hold (ties to even), scaled down by powers of 1024, and printed
//! with a fixed number of decimals (ties to even). All of it is done on
//! integers, so the result is the exact decimal text.
use vstd::prelude::*;
use crate::text::{dec, push_char, push_dec};

verus! {

/// 2^53: below this every integer is exactly representable in an `f64`.
pub open spec fn f64_exact_limit() -> nat {
    9007199254740992
}

/// Rounds `n / d` to the nearest integer, ties to the even neighbour.
pub open spec fn div_round_even(n: nat, d: nat) -> nat {
    let q = n / d;
    let r = n % d;
    if 2 * r > d || (2 * r == d && q % 2 == 1) {
        q + 1
    } else {
        q
    }
}

/// Smallest `d * 2^j` (`j <= fuel`) with `n / (d * 2^j)` below 2^53: the
/// spacing of the `f64` values around `n` when started from `d == 1`.
pub open spec fn spacing_from(n: nat, d: nat, fuel: nat) -> nat
    decreases fuel,
{
    if fuel == 0 || d == 0 || n / d < f64_exact_limit() {
        d
    } else {
        spacing_from(n, 2 * d, (fuel - 1) as nat)
    }
}

/// The value an `f64` holds after `n as f64`: the nearest multiple of the
/// local spacing, ties to even.
pub open spec fn f64_value(n: nat) -> nat {
    let d = spacing_from(n, 1, 64);
    div_round_even(n, d) * d
}

/// 1024^k.
pub open spec fn pow1024(k: nat) -> nat
    decreases k,
{
    if k == 0 { 1 } else { 1024 * pow1024((k - 1) as nat) }
}

/// Number of divisions by 1024 a size loop makes on `r`, starting at `k`
/// and stopping at `max` or once `r / 1024^k` is below 1024.
pub open spec fn unit_index(r: nat, k: nat, max: nat) -> nat
    decreases max - k,
{
    if k < max && r >= pow1024(k + 1) {
        unit_index(r, k + 1, max)
    } else {
        k
    }
}

/// `t / 10` rendered with one decimal: what `{:.1}` prints for a value
/// whose tenths, already rounded, are `t`.
pub open spec fn tenths_text(t: nat) -> Seq<char> {
    dec(t / 10).push('.') + dec(t % 10)
}

/// What `{:.1}` prints for the float value `r / 1024^k`.
pub open spec fn one_decimal(r: nat, k: nat) -> Seq<char> {
    tenths_text(div_round_even(10 * r, pow1024(k)))
}

/// What `{:.0}` prints for the float value `r / 1024^k`.
pub open spec fn no_decimal(r: nat, k: nat) -> Seq<char> {
    dec(div_round_even(r, pow1024(k)))
}

proof fn lemma_pow1024_bounds(k: nat)
    requires
        k <= 6,
    ensures
        1 <= pow1024(k) <= 1152921504606846976,
        k >= 1 ==> pow1024(k) == 1024 * pow1024((k - 1) as nat),
{
    reveal_with_fuel(pow1024, 7);
}

/// 1024^k as an integer.
pub fn pow1024_exec(k: u32) -> (p: u128)
    requires
        k <= 6,
    ensures
        p == pow1024(k as nat),
{
    proof {
        reveal_with_fuel(pow1024, 7);
    }
    if k == 0 { 1 }
    else if k == 1 { 1024 }
    else if k == 2 { 1048576 }
    else if k == 3 { 1073741824 }
    else if k == 4 { 1099511627776 }
    else if k == 5 { 1125899906842624 }
    else { 1152921504606846976 }
}

proof fn lemma_div_facts(n: nat, d: nat)
    requires
        d >= 1,
    ensures
        n / d <= n,
        (n / d) * d <= n,
        (n / d) * d + d <= n + d,
        n % d < d,
{
    vstd::arithmetic::div_mod::lemma_fundamental_div_mod(n as int, d as int);
    let q = n / d;
    let r = n % d;
    assert(0 <= r < d);
    assert(q <= n && q * d <= n) by (nonlinear_arith)
        requires
            n == d * q + r,
            0 <= r,
            d >= 1,
            q >= 0,
    ;
}

/// `n / d` rounded to the nearest integer, ties to even.
pub fn div_round_even_exec(n: u128, d: u128) -> (q: u128)
    requires
        d > 0,
        n <= 0x1_0000_0000_0000_0000_0000,
    ensures
        q == div_round_even(n as nat, d as nat),
        q * d <= n + d,
{
    let q = n / d;
    let r = n % d;
    proof {
        lemma_div_facts(n as nat, d as nat);
    }
    if r > d - r || (r == d - r && q % 2 == 1) {
        assert((q + 1) * d == q * d + d) by (nonlinear_arith);
        q + 1
    } else {
        assert(q * d <= n + d);
        q
    }
}

/// 2^e, as a bound on the spacing.
pub open spec fn pow2_bound(e: int) -> nat
    decreases e,
{
    if e <= 0 { 1 } else { 2 * pow2_bound(e - 1) }
}

/// The value `n as f64` holds, as an exact integer.
pub fn f64_value_exec(n: u64) -> (r: u128)
    ensures
        r == f64_value(n as nat),
        r <= 0x2_0000_0000_0000_0000,
{
    let mut d: u128 = 1;
    let mut fuel: u32 = 64;
    let ghost n0 = n as nat;
    while fuel > 0 && (n as u128) / d >= 9007199254740992
        invariant
            fuel <= 64,
            1 <= d,
            d <= n0 + 1,
            spacing_from(n0, d as nat, fuel as nat) == spacing_from(n0, 1, 64),
            n0 == n as nat,
        decreases fuel,
    {
        proof {
            lemma_div_facts(n0, d as nat);
            assert(d * 2 <= n0 + 1) by (nonlinear_arith)
                requires
                    (n0 / (d as nat)) * (d as nat) <= n0,
                    n0 / (d as nat) >= 9007199254740992,
                    d >= 1,
            ;
        }
        d = d * 2;
        fuel = fuel - 1;
    }
    let q = div_round_even_exec(n as u128, d);
    q * d
}

/// How many times a size loop divides `r` by 1024, at most `max` times.
pub fn unit_index_exec(r: u128, max: u32) -> (k: u32)
    requires
        max <= 5,
    ensures
        k == unit_index(r as nat, 0, max as nat),
        k <= max,
{
    let mut k: u32 = 0;
    while k < max && r >= pow1024_exec(k + 1)
        invariant
            k <= max,
            max <= 5,
            unit_index(r as nat, k as nat, max as nat) == unit_index(r as nat, 0, max as nat),
        decreases max - k,
    {
        k = k + 1;
    }
    k
}

/// Appends what `{:.1}` prints for the float value `r / 1024^k`.
pub fn push_one_decimal(s: &mut String, r: u128, k: u32)
    requires
        r <= 0x2_0000_0000_0000_0000,
        k <= 6,
    ensures
        final(s)@ == old(s)@ + one_decimal(r as nat, k as nat),
{
    let p = pow1024_exec(k);
    proof {
        lemma_pow1024_bounds(k as nat);
    }
    let t = div_round_even_exec(10 * r, p);
    push_dec(s, t / 10);
    push_char(s, '.');
    push_dec(s, t % 10);
    assert(final(s)@ =~= old(s)@ + one_decimal(r as nat, k as nat));
}

/// Appends what `{:.0}` prints for the float value `r / 1024^k`.
pub fn push_no_decimal(s: &mut String, r: u128, k: u32)
    requires
        r <= 0x2_0000_0000_0000_0000,
        k <= 6,
    ensures
        final(s)@ == old(s)@ + no_decimal(r as nat, k as nat),
{
    let p = pow1024_exec(k);
    proof {
        lemma_pow1024_bounds(k as nat);
    }
    let t = div_round_even_exec(r, p);
    push_dec(s, t);
}

} // verus!
