//! Directed bounds on the exponential and the logarithm.
//!
//! For a non-negative `x`, `exp(x) - 1` is the limit of the growing sums
//! `x + x^2/2! + .. + x^n/n!`. A number is therefore at least `exp(x) - 1`
//! exactly if it is at least every such sum, and it is at most `exp(x) - 1` as
//! soon as it is at most one of them. The bounds of this module are sums of
//! [`TERMS`] terms, each term rounded in the direction of the bound, and the
//! upper bound closed by a bound on all the terms that were left out.
//!
//! The logarithm is read off the bounds of the exponential. The least grid
//! point `r` whose lower bound `exp_m1_lower(r)` reaches `y` satisfies
//! `exp(r) - 1 >= y`, so `r >= ln(1 + y)`. The greatest grid point `r` whose
//! upper bound `exp_m1_upper(r)` is at most `y` satisfies `exp(r) - 1 <= y`,
//! so `r <= ln(1 + y)`.

use vstd::prelude::*;
use crate::error::{Error, Fallible};
use crate::fixed::{
    ceil_div,
    checked,
    floor_div,
    lemma_div_brackets,
    lemma_div_monotone,
    unit,
    Fixed,
};

verus! {

/// The number of terms of the exponential series that a bound sums up.
pub const TERMS: u32 = 64;

/// The largest raw argument for which the upper bound of the exponential is
/// defined: `(TERMS + 1) / 2`. From the last summed term on, each term of
/// the series is then at most half the one before.
pub const EXP_LIMIT_BITS: i64 = 0x20_8000_0000;

/// An upper bound on the raw value of `x^k / k!`, where `a` is the raw value
/// of `x`: each term is the one before, times `x / k`, rounded up.
pub open spec fn upper_term(a: int, k: nat) -> int
    decreases k,
{
    if k == 0 {
        unit()
    } else {
        ceil_div(upper_term(a, (k - 1) as nat) * a, unit() * k)
    }
}

/// A lower bound on the raw value of `x^k / k!`: each term is the one before,
/// times `x / k`, rounded down.
pub open spec fn lower_term(a: int, k: nat) -> int
    decreases k,
{
    if k == 0 {
        unit()
    } else {
        floor_div(lower_term(a, (k - 1) as nat) * a, unit() * k)
    }
}

/// The sum of the upper bounds on the terms `1 ..= n`.
pub open spec fn upper_sum(a: int, n: nat) -> int
    decreases n,
{
    if n == 0 {
        0
    } else {
        upper_sum(a, (n - 1) as nat) + upper_term(a, n)
    }
}

/// The sum of the lower bounds on the terms `1 ..= n`.
pub open spec fn lower_sum(a: int, n: nat) -> int
    decreases n,
{
    if n == 0 {
        0
    } else {
        lower_sum(a, (n - 1) as nat) + lower_term(a, n)
    }
}

/// The raw upper bound on `exp(x) - 1`: the summed terms, and the last of
/// them once more for all the terms that follow it.
pub open spec fn exp_m1_upper(a: int) -> int {
    upper_sum(a, TERMS as nat) + upper_term(a, TERMS as nat)
}

/// The raw lower bound on `exp(x) - 1`: the summed terms.
pub open spec fn exp_m1_lower(a: int) -> int {
    lower_sum(a, TERMS as nat)
}

/// Whether `r` is the raw upper bound on `ln(1 + y)`: the least grid point at
/// which the lower bound of the exponential reaches `y`.
pub open spec fn is_ln_1p_upper(y: int, r: int) -> bool {
    &&& 0 <= r
    &&& exp_m1_lower(r) >= y
    &&& forall|q: int| 0 <= q < r ==> #[trigger] exp_m1_lower(q) < y
}

/// The raw upper bound on `ln(1 + y)`.
pub open spec fn ln_1p_upper(y: int) -> int {
    choose|r: int| is_ln_1p_upper(y, r)
}

/// Whether `r` is the raw lower bound on `ln(1 + y)`: the greatest grid
/// point, among those at which the upper bound of the exponential is defined,
/// at which that bound is still at most `y`.
pub open spec fn is_ln_1p_lower(y: int, r: int) -> bool {
    &&& 0 <= r <= EXP_LIMIT_BITS
    &&& exp_m1_upper(r) <= y
    &&& forall|q: int| r < q <= EXP_LIMIT_BITS ==> #[trigger] exp_m1_upper(q) > y
}

/// The raw lower bound on `ln(1 + y)`.
pub open spec fn ln_1p_lower(y: int) -> int {
    choose|r: int| is_ln_1p_lower(y, r)
}

/// A raw upper bound on `ln(1 / z)`, for a positive `z` below one: the upper
/// bound on `ln(1 + (w - 1))` for the excess `w` of `1 / z`. Where that
/// excess is beyond the largest number, `1 / z` is at most `2^32`, and the
/// bound is one on `ln(2^31)` plus one on `ln(2)`.
pub open spec fn ln_reciprocal_upper(z: int) -> int {
    let excess = ceil_div(unit() * unit(), z);
    if excess > i64::MAX {
        ln_1p_upper(i64::MAX as int) + ln_1p_upper(unit())
    } else {
        ln_1p_upper(excess - unit())
    }
}

/// A raw deficiency of `1 / z`, for a positive `z` with raw value `z`: the
/// quotient rounded down, or the largest number if that is less.
pub open spec fn reciprocal_deficiency(z: int) -> int {
    let quotient = floor_div(unit() * unit(), z);
    if quotient > i64::MAX {
        i64::MAX as int
    } else {
        quotient
    }
}

proof fn lemma_first_terms(a: int)
    ensures
        upper_term(a, 1) == a,
        lower_term(a, 1) == a,
        upper_sum(a, 1) == a,
        lower_sum(a, 1) == a,
{
    reveal_with_fuel(upper_term, 2);
    reveal_with_fuel(lower_term, 2);
    reveal_with_fuel(upper_sum, 2);
    reveal_with_fuel(lower_sum, 2);
    let s = unit();
    assert(s * 1 == s);
    assert(s * a == a * s) by (nonlinear_arith);
    vstd::arithmetic::div_mod::lemma_div_multiples_vanish(a, s);
    vstd::arithmetic::div_mod::lemma_div_multiples_vanish(-a, s);
    assert(-(s * a) == (-a) * s) by (nonlinear_arith);
}

/// At zero both bounds of the exponential are zero: they are exact.
pub proof fn lemma_exp_m1_upper_zero()
    ensures
        exp_m1_upper(0) == 0,
        exp_m1_lower(0) == 0,
{
    lemma_zero_terms(TERMS as nat);
}

proof fn lemma_zero_terms(n: nat)
    ensures
        n > 0 ==> upper_term(0, n) == 0 && lower_term(0, n) == 0,
        upper_sum(0, n) == 0,
        lower_sum(0, n) == 0,
    decreases n,
{
    if n > 0 {
        lemma_zero_terms((n - 1) as nat);
        let d = unit() * n;
        assert(d > 0) by (nonlinear_arith)
            requires
                d == unit() * n,
                unit() > 0,
                n > 0,
        ;
        assert(upper_term(0, (n - 1) as nat) * 0 == 0);
        assert(lower_term(0, (n - 1) as nat) * 0 == 0);
        assert(ceil_div(0, d) == 0 && floor_div(0, d) == 0);
    }
}

/// For a non-negative argument no term is negative, the lower bound of a term
/// is at most its upper bound, and both grow with the argument.
pub proof fn lemma_terms_monotone(a1: int, a2: int, k: nat)
    requires
        0 <= a1 <= a2,
    ensures
        0 <= lower_term(a1, k) <= lower_term(a2, k),
        0 <= upper_term(a1, k) <= upper_term(a2, k),
        lower_term(a1, k) <= upper_term(a1, k),
    decreases k,
{
    if k > 0 {
        let j = (k - 1) as nat;
        lemma_terms_monotone(a1, a2, j);
        let d = unit() * k;
        assert(d > 0) by (nonlinear_arith)
            requires
                d == unit() * k,
                unit() > 0,
                k > 0,
        ;
        let l1 = lower_term(a1, j);
        let l2 = lower_term(a2, j);
        let u1 = upper_term(a1, j);
        let u2 = upper_term(a2, j);
        assert(0 <= l1 * a1 <= l2 * a2 && 0 <= u1 * a1 <= u2 * a2 && l1 * a1 <= u1 * a1)
            by (nonlinear_arith)
            requires
                0 <= a1 <= a2,
                0 <= l1 <= l2,
                0 <= u1 <= u2,
                l1 <= u1,
        ;
        lemma_div_monotone(0, l1 * a1, d);
        lemma_div_monotone(l1 * a1, l2 * a2, d);
        lemma_div_monotone(0, u1 * a1, d);
        lemma_div_monotone(u1 * a1, u2 * a2, d);
        lemma_div_monotone(l1 * a1, u1 * a1, d);
        lemma_div_brackets(u1 * a1, d);
        assert(floor_div(0, d) == 0 && ceil_div(0, d) == 0);
    }
}

/// For a non-negative argument the sums grow with the argument and with the
/// number of terms, and each sum holds each of its terms.
pub proof fn lemma_sums_monotone(a1: int, a2: int, n1: nat, n2: nat)
    requires
        0 <= a1 <= a2,
        n1 <= n2,
    ensures
        0 <= lower_sum(a1, n1) <= lower_sum(a2, n2),
        0 <= upper_sum(a1, n1) <= upper_sum(a2, n2),
        lower_sum(a1, n1) <= upper_sum(a1, n1),
        n1 > 0 ==> upper_term(a1, n1) <= upper_sum(a2, n2),
        n1 > 0 ==> lower_term(a1, n1) <= lower_sum(a2, n2),
    decreases n2,
{
    if n2 > 0 {
        lemma_terms_monotone(a1, a2, n2);
        lemma_terms_monotone(a2, a2, n2);
        if n1 == n2 {
            lemma_sums_monotone(a1, a2, (n1 - 1) as nat, (n2 - 1) as nat);
        } else {
            lemma_sums_monotone(a1, a2, n1, (n2 - 1) as nat);
        }
    }
}

/// The upper bound of the exponential grows with its argument.
pub proof fn lemma_exp_m1_upper_monotone(a1: int, a2: int)
    requires
        0 <= a1 <= a2,
    ensures
        0 <= exp_m1_upper(a1) <= exp_m1_upper(a2),
        a1 <= exp_m1_upper(a1),
{
    lemma_sums_monotone(a1, a2, TERMS as nat, TERMS as nat);
    lemma_terms_monotone(a1, a2, TERMS as nat);
    lemma_sums_monotone(a1, a1, 1, TERMS as nat);
    lemma_first_terms(a1);
}

/// The lower bound of the exponential grows with its argument, and is at
/// least the argument.
pub proof fn lemma_exp_m1_lower_monotone(a1: int, a2: int)
    requires
        0 <= a1 <= a2,
    ensures
        0 <= exp_m1_lower(a1) <= exp_m1_lower(a2),
        a1 <= exp_m1_lower(a1),
{
    lemma_sums_monotone(a1, a2, TERMS as nat, TERMS as nat);
    lemma_sums_monotone(a1, a1, 1, TERMS as nat);
    lemma_first_terms(a1);
}

/// There is exactly one upper bound on `ln(1 + y)`, and it is at most `y`.
pub proof fn lemma_ln_1p_upper_unique(y: int, r: int)
    requires
        is_ln_1p_upper(y, r),
    ensures
        ln_1p_upper(y) == r,
{
    let c = ln_1p_upper(y);
    assert(is_ln_1p_upper(y, c));
    if c < r {
        assert(exp_m1_lower(c) < y);
    }
    if r < c {
        assert(exp_m1_lower(r) < y);
    }
}

/// Every non-negative `y` has an upper bound on `ln(1 + y)`, between zero and
/// `y`.
pub proof fn lemma_ln_1p_upper_exists(y: int)
    requires
        0 <= y,
    ensures
        is_ln_1p_upper(y, ln_1p_upper(y)),
        0 <= ln_1p_upper(y) <= y,
{
    lemma_exp_m1_lower_monotone(y, y);
    let r = lemma_least_reaching(y, y);
    lemma_ln_1p_upper_unique(y, r);
}

proof fn lemma_least_reaching(y: int, hi: int) -> (r: int)
    requires
        0 <= hi,
        exp_m1_lower(hi) >= y,
    ensures
        is_ln_1p_upper(y, r),
        r <= hi,
    decreases hi,
{
    if exists|q: int| 0 <= q < hi && exp_m1_lower(q) >= y {
        let q = choose|q: int| 0 <= q < hi && exp_m1_lower(q) >= y;
        lemma_least_reaching(y, q)
    } else {
        hi
    }
}

/// The upper bound of the logarithm grows with its argument.
pub proof fn lemma_ln_1p_upper_monotone(y1: int, y2: int, r1: int, r2: int)
    requires
        y1 <= y2,
        is_ln_1p_upper(y1, r1),
        is_ln_1p_upper(y2, r2),
    ensures
        r1 <= r2,
{
    if r2 < r1 {
        assert(exp_m1_lower(r2) < y1);
    }
}

/// `a^k`.
pub open spec fn power(a: int, k: nat) -> int
    decreases k,
{
    if k == 0 {
        1
    } else {
        power(a, (k - 1) as nat) * a
    }
}

/// The denominator of the `n`-th sum of the series: `2^(32 n) * n!`.
pub open spec fn series_den(n: nat) -> int
    decreases n,
{
    if n == 0 {
        1
    } else {
        series_den((n - 1) as nat) * (unit() * n)
    }
}

/// The numerator of the `n`-th sum of the series: for `x` with raw value `a`,
/// `x + x^2/2! + .. + x^n/n!` is `series_num(a, n) / series_den(n)`.
pub open spec fn series_num(a: int, n: nat) -> int
    decreases n,
{
    if n == 0 {
        0
    } else {
        series_num(a, (n - 1) as nat) * (unit() * n) + power(a, n)
    }
}

proof fn lemma_series_signs(a: int, n: nat)
    requires
        0 <= a,
    ensures
        series_den(n) > 0,
        power(a, n) >= 0,
        series_num(a, n) >= 0,
    decreases n,
{
    if n > 0 {
        lemma_series_signs(a, (n - 1) as nat);
        let c = unit() * n;
        let d = series_den((n - 1) as nat);
        let p = power(a, (n - 1) as nat);
        let q = series_num(a, (n - 1) as nat);
        assert(c > 0 && d * c > 0 && p * a >= 0 && q * c >= 0) by (nonlinear_arith)
            requires
                c == unit() * n,
                unit() > 0,
                n > 0,
                d > 0,
                p >= 0,
                a >= 0,
                q >= 0,
        ;
    }
}

/// Each term of a bound lies on its side of the exact term `x^k / k!`.
proof fn lemma_term_bounds(a: int, k: nat)
    requires
        0 <= a,
    ensures
        lower_term(a, k) * series_den(k) <= unit() * power(a, k),
        unit() * power(a, k) <= upper_term(a, k) * series_den(k),
    decreases k,
{
    if k > 0 {
        let j = (k - 1) as nat;
        lemma_term_bounds(a, j);
        lemma_series_signs(a, j);
        lemma_terms_monotone(a, a, j);
        let c = unit() * k;
        assert(c > 0) by (nonlinear_arith)
            requires
                c == unit() * k,
                unit() > 0,
                k > 0,
        ;
        let dj = series_den(j);
        let pj = unit() * power(a, j);
        let l = lower_term(a, j);
        let u = upper_term(a, j);
        let l1 = lower_term(a, k);
        let u1 = upper_term(a, k);
        lemma_div_brackets(l * a, c);
        lemma_div_brackets(u * a, c);
        assert(l1 * c <= l * a);
        assert(u * a <= u1 * c);
        assert(l1 * (dj * c) <= pj * a) by (nonlinear_arith)
            requires
                l1 * c <= l * a,
                l * dj <= pj,
                dj > 0,
                a >= 0,
        ;
        assert(pj * a <= u1 * (dj * c)) by (nonlinear_arith)
            requires
                u * a <= u1 * c,
                pj <= u * dj,
                dj > 0,
                a >= 0,
        ;
        assert(unit() * (power(a, j) * a) == pj * a) by (nonlinear_arith)
            requires
                pj == unit() * power(a, j),
        ;
    }
}

/// Each sum of a bound lies on its side of the exact sum of as many terms.
proof fn lemma_sum_bounds(a: int, n: nat)
    requires
        0 <= a,
    ensures
        lower_sum(a, n) * series_den(n) <= unit() * series_num(a, n),
        unit() * series_num(a, n) <= upper_sum(a, n) * series_den(n),
    decreases n,
{
    if n > 0 {
        let j = (n - 1) as nat;
        lemma_sum_bounds(a, j);
        lemma_term_bounds(a, n);
        lemma_series_signs(a, j);
        let c = unit() * n;
        assert(c > 0) by (nonlinear_arith)
            requires
                c == unit() * n,
                unit() > 0,
                n > 0,
        ;
        let dj = series_den(j);
        let dn = series_den(n);
        let sj = unit() * series_num(a, j);
        let pn = unit() * power(a, n);
        let ls = lower_sum(a, j);
        let us = upper_sum(a, j);
        let lt = lower_term(a, n);
        let ut = upper_term(a, n);
        assert(dn == dj * c);
        assert((ls + lt) * dn <= sj * c + pn) by (nonlinear_arith)
            requires
                dn == dj * c,
                ls * dj <= sj,
                lt * dn <= pn,
                c > 0,
        ;
        assert(sj * c + pn <= (us + ut) * dn) by (nonlinear_arith)
            requires
                dn == dj * c,
                sj <= us * dj,
                pn <= ut * dn,
                c > 0,
        ;
        assert(unit() * (series_num(a, j) * c + power(a, n)) == sj * c + pn) by (nonlinear_arith)
            requires
                sj == unit() * series_num(a, j),
                pn == unit() * power(a, n),
        ;
    }
}

/// Past the last summed term the series falls off at least by half from term
/// to term: `j` terms further, a term is at most the last summed term's bound
/// divided by `2^j`, and the sum is at most the bound's sum plus what the
/// halved terms add up to.
proof fn lemma_tail_bounds(a: int, j: nat)
    requires
        0 <= a <= EXP_LIMIT_BITS,
    ensures
        unit() * power(a, TERMS as nat + j) * power(2, j) <= upper_term(a, TERMS as nat)
            * series_den(TERMS as nat + j),
        unit() * series_num(a, TERMS as nat + j) * power(2, j) <= (upper_sum(a, TERMS as nat)
            * power(2, j) + upper_term(a, TERMS as nat) * (power(2, j) - 1)) * series_den(
            TERMS as nat + j,
        ),
    decreases j,
{
    let m = TERMS as nat;
    let u = upper_term(a, m);
    let us = upper_sum(a, m);
    lemma_terms_monotone(a, a, m);
    lemma_sums_monotone(a, a, m, m);
    if j == 0 {
        lemma_term_bounds(a, m);
        lemma_sum_bounds(a, m);
        assert(power(2, 0) == 1);
        assert(unit() * power(a, m) * 1 == unit() * power(a, m));
        assert(unit() * series_num(a, m) * 1 == unit() * series_num(a, m));
        assert((us * 1 + u * (1 - 1)) * series_den(m) == us * series_den(m)) by (nonlinear_arith);
    } else {
        let i = (j - 1) as nat;
        let n = m + i;
        lemma_tail_bounds(a, i);
        lemma_series_signs(a, n);
        lemma_series_signs(2, i);
        let c = unit() * (n + 1);
        assert(c >= 2 * a && c > 0) by (nonlinear_arith)
            requires
                c == unit() * (n + 1),
                n >= 64,
                unit() == 0x1_0000_0000,
                a <= 0x20_8000_0000,
        ;
        let t = power(2, i);
        let dn = series_den(n);
        let d1 = series_den(n + 1);
        let pa = unit() * power(a, n);
        let p1 = unit() * power(a, n + 1);
        let sn = unit() * series_num(a, n);
        let s1 = unit() * series_num(a, n + 1);
        assert(d1 == dn * c);
        assert(power(2, j) == t * 2);
        assert(p1 == pa * a) by (nonlinear_arith)
            requires
                p1 == unit() * (power(a, n) * a),
                pa == unit() * power(a, n),
        ;
        assert(s1 == sn * c + p1) by (nonlinear_arith)
            requires
                s1 == unit() * (series_num(a, n) * c + power(a, (n + 1) as nat)),
                sn == unit() * series_num(a, n),
                p1 == unit() * power(a, (n + 1) as nat),
        ;
        // the term
        assert(p1 * (t * 2) <= u * d1) by (nonlinear_arith)
            requires
                p1 == pa * a,
                pa * t <= u * dn,
                d1 == dn * c,
                c >= 2 * a,
                a >= 0,
                u >= 0,
                dn > 0,
        ;
        // the sum
        let x = sn * t;
        let b = (us * t + u * (t - 1)) * dn;
        assert((2 * c) * x <= (2 * c) * b) by (nonlinear_arith)
            requires
                x <= b,
                c > 0,
        ;
        assert(s1 * (t * 2) == (2 * c) * x + p1 * (t * 2)) by (nonlinear_arith)
            requires
                s1 == sn * c + p1,
                x == sn * t,
        ;
        let w = us * t + u * (t - 1);
        assert((2 * c) * b == (2 * w) * d1) by (nonlinear_arith)
            requires
                b == w * dn,
                d1 == dn * c,
        ;
        assert(2 * w + u == us * (t * 2) + u * (t * 2 - 1)) by (nonlinear_arith)
            requires
                w == us * t + u * (t - 1),
        ;
        assert((2 * w) * d1 + u * d1 == (2 * w + u) * d1) by (nonlinear_arith);
    }
}

/// The upper bound is at least `exp(x) - 1`: it is at least every sum of the
/// series, however many terms are taken.
pub proof fn lemma_exp_m1_upper_sound(a: int, n: nat)
    requires
        0 <= a <= EXP_LIMIT_BITS,
    ensures
        unit() * series_num(a, n) <= exp_m1_upper(a) * series_den(n),
{
    let m = TERMS as nat;
    let u = upper_term(a, m);
    let us = upper_sum(a, m);
    lemma_terms_monotone(a, a, m);
    lemma_series_signs(a, n);
    let dn = series_den(n);
    let sn = unit() * series_num(a, n);
    if n <= m {
        lemma_sum_bounds(a, n);
        lemma_sums_monotone(a, a, n, m);
        let un = upper_sum(a, n);
        assert(sn <= (us + u) * dn) by (nonlinear_arith)
            requires
                sn <= un * dn,
                un <= us,
                u >= 0,
                dn > 0,
        ;
    } else {
        let j = (n - m) as nat;
        lemma_tail_bounds(a, j);
        lemma_series_signs(2, j);
        let t = power(2, j);
        assert(t > 0) by {
            lemma_power_of_two_positive(j);
        }
        assert(sn <= (us + u) * dn) by (nonlinear_arith)
            requires
                sn * t <= (us * t + u * (t - 1)) * dn,
                t > 0,
                u >= 0,
                dn > 0,
        ;
    }
}

proof fn lemma_power_of_two_positive(j: nat)
    ensures
        power(2, j) > 0,
    decreases j,
{
    if j > 0 {
        lemma_power_of_two_positive((j - 1) as nat);
    }
}

/// The lower bound is at most `exp(x) - 1`: it is at most the sum of the
/// first [`TERMS`] terms of the series.
pub proof fn lemma_exp_m1_lower_sound(a: int)
    requires
        0 <= a,
    ensures
        exp_m1_lower(a) * series_den(TERMS as nat) <= unit() * series_num(a, TERMS as nat),
{
    lemma_sum_bounds(a, TERMS as nat);
}

/// The upper bound `r` on `ln(1 + y)` is indeed one: already the first
/// [`TERMS`] terms of the series of `exp(r) - 1` add up to `y` or more.
pub proof fn lemma_ln_1p_upper_sound(y: int, r: int)
    requires
        is_ln_1p_upper(y, r),
    ensures
        y * series_den(TERMS as nat) <= unit() * series_num(r, TERMS as nat),
{
    lemma_exp_m1_lower_sound(r);
    lemma_series_signs(r, TERMS as nat);
    let d = series_den(TERMS as nat);
    let l = exp_m1_lower(r);
    assert(y * d <= l * d) by (nonlinear_arith)
        requires
            y <= l,
            d > 0,
    ;
}

impl Fixed {
    /// An upper bound on `exp(x) - 1`, for `x` from zero to
    /// `(TERMS + 1) / 2`.
    pub open spec fn spec_inf_exp_m1(&self) -> Fallible<Fixed> {
        if self@ < 0 || self@ > EXP_LIMIT_BITS {
            Err(Error::ArithmeticFailure)
        } else {
            checked(exp_m1_upper(self@))
        }
    }

    /// An upper bound on `ln(1 + y)`, for `y` from zero.
    pub open spec fn spec_inf_ln_1p(&self) -> Fallible<Fixed> {
        if self@ < 0 {
            Err(Error::ArithmeticFailure)
        } else {
            checked(ln_1p_upper(self@))
        }
    }

    /// A lower bound on `exp(x) - 1`, for `x` from zero.
    pub open spec fn spec_neg_inf_exp_m1(&self) -> Fallible<Fixed> {
        if self@ < 0 {
            Err(Error::ArithmeticFailure)
        } else {
            checked(exp_m1_lower(self@))
        }
    }

    /// A lower bound on `ln(1 + y)`, for `y` from zero.
    pub open spec fn spec_neg_inf_ln_1p(&self) -> Fallible<Fixed> {
        if self@ < 0 {
            Err(Error::ArithmeticFailure)
        } else {
            checked(ln_1p_lower(self@))
        }
    }

    /// A lower bound on `ln(z)`, for a positive `z`. From one on it is the
    /// lower bound on `ln(1 + (z - 1))`. Below one it is minus the upper
    /// bound on `ln(1 / z)`.
    pub open spec fn spec_neg_inf_ln(&self) -> Fallible<Fixed> {
        if self@ <= 0 {
            Err(Error::ArithmeticFailure)
        } else if self@ < unit() {
            checked(-ln_reciprocal_upper(self@))
        } else {
            checked(ln_1p_lower(self@ - unit()))
        }
    }

    /// An upper bound on `ln(z)`, for a positive `z`. From one on it is the
    /// upper bound on `ln(1 + (z - 1))`. Below one, where the logarithm is
    /// negative, it is minus the lower bound on `ln(1 + (w - 1))` for a
    /// deficiency `w` of `1 / z`.
    pub open spec fn spec_inf_ln(&self) -> Fallible<Fixed> {
        if self@ <= 0 {
            Err(Error::ArithmeticFailure)
        } else if self@ < unit() {
            checked(-ln_1p_lower(reciprocal_deficiency(self@) - unit()))
        } else {
            checked(ln_1p_upper(self@ - unit()))
        }
    }

    pub fn inf_exp_m1(&self) -> (r: Fallible<Fixed>)
        ensures
            r == self.spec_inf_exp_m1(),
    {
        if self.bits < 0 || self.bits > EXP_LIMIT_BITS {
            return Err(Error::ArithmeticFailure);
        }
        let a: i128 = self.bits as i128;
        let mut term: i128 = a;
        let mut sum: i128 = a;
        let mut k: u32 = 1;
        proof {
            lemma_first_terms(a as int);
        }
        while k < TERMS
            invariant
                1 <= k <= TERMS,
                0 <= a <= EXP_LIMIT_BITS,
                a == self@,
                term == upper_term(a as int, k as nat),
                sum == upper_sum(a as int, k as nat),
                0 <= term <= i64::MAX,
                0 <= sum <= k * i64::MAX,
            decreases TERMS - k,
        {
            let d: i128 = 0x1_0000_0000 * ((k + 1) as i128);
            assert(0 <= term * a <= i64::MAX * EXP_LIMIT_BITS) by (nonlinear_arith)
                requires
                    0 <= term <= i64::MAX,
                    0 <= a <= EXP_LIMIT_BITS,
            ;
            let next = wide_ceil(term * a, d);
            k = k + 1;
            proof {
                lemma_terms_monotone(a as int, a as int, k as nat);
            }
            if next > 0x7fff_ffff_ffff_ffff {
                proof {
                    lemma_sums_monotone(a as int, a as int, k as nat, TERMS as nat);
                    lemma_terms_monotone(a as int, a as int, TERMS as nat);
                }
                return Err(Error::ArithmeticFailure);
            }
            term = next;
            sum = sum + term;
        }
        let total = sum + term;
        if total > 0x7fff_ffff_ffff_ffff {
            Err(Error::ArithmeticFailure)
        } else {
            Ok(Fixed { bits: total as i64 })
        }
    }

    pub fn neg_inf_exp_m1(&self) -> (r: Fallible<Fixed>)
        ensures
            r == self.spec_neg_inf_exp_m1(),
    {
        if self.bits < 0 {
            return Err(Error::ArithmeticFailure);
        }
        let a: i128 = self.bits as i128;
        let mut term: i128 = a;
        let mut sum: i128 = a;
        let mut k: u32 = 1;
        proof {
            lemma_first_terms(a as int);
        }
        while k < TERMS
            invariant
                1 <= k <= TERMS,
                0 <= a <= i64::MAX,
                a == self@,
                term == lower_term(a as int, k as nat),
                sum == lower_sum(a as int, k as nat),
                0 <= term <= sum <= i64::MAX,
            decreases TERMS - k,
        {
            let d: i128 = 0x1_0000_0000 * ((k + 1) as i128);
            assert(0 <= term * a <= i64::MAX * i64::MAX) by (nonlinear_arith)
                requires
                    0 <= term <= i64::MAX,
                    0 <= a <= i64::MAX,
            ;
            let next = wide_floor(term * a, d);
            k = k + 1;
            assert(next <= i64::MAX * i64::MAX);
            term = next;
            sum = sum + term;
            if sum > 0x7fff_ffff_ffff_ffff {
                proof {
                    lemma_sums_monotone(a as int, a as int, k as nat, TERMS as nat);
                }
                return Err(Error::ArithmeticFailure);
            }
        }
        Ok(Fixed { bits: sum as i64 })
    }

    pub fn neg_inf_ln_1p(&self) -> (r: Fallible<Fixed>)
        ensures
            r == self.spec_neg_inf_ln_1p(),
    {
        if self.bits < 0 {
            return Err(Error::ArithmeticFailure);
        }
        Ok(Fixed { bits: ln_1p_lower_bits(self.bits) })
    }

    pub fn inf_ln_1p(&self) -> (r: Fallible<Fixed>)
        ensures
            r == self.spec_inf_ln_1p(),
    {
        if self.bits < 0 {
            return Err(Error::ArithmeticFailure);
        }
        Ok(Fixed { bits: ln_1p_upper_bits(self.bits) })
    }

    pub fn neg_inf_ln(&self) -> (r: Fallible<Fixed>)
        ensures
            r == self.spec_neg_inf_ln(),
    {
        if self.bits <= 0 {
            return Err(Error::ArithmeticFailure);
        }
        if self.bits >= 0x1_0000_0000 {
            return Ok(Fixed { bits: ln_1p_lower_bits(self.bits - 0x1_0000_0000) });
        }
        let squared: i128 = 0x1_0000_0000_0000_0000;
        proof {
            assert(unit() * unit() == 0x1_0000_0000_0000_0000) by (nonlinear_arith)
                requires
                    unit() == 0x1_0000_0000,
            ;
            lemma_reciprocal_excess(self@);
        }
        let excess: i128 = wide_ceil(squared, self.bits as i128);
        let bound: i128 = if excess > 0x7fff_ffff_ffff_ffff {
            ln_1p_upper_bits(0x7fff_ffff_ffff_ffff) as i128 + ln_1p_upper_bits(0x1_0000_0000) as i128
        } else {
            ln_1p_upper_bits((excess - 0x1_0000_0000) as i64) as i128
        };
        if bound > 0x8000_0000_0000_0000 {
            Err(Error::ArithmeticFailure)
        } else {
            Ok(Fixed { bits: (-bound) as i64 })
        }
    }

    pub fn inf_ln(&self) -> (r: Fallible<Fixed>)
        ensures
            r == self.spec_inf_ln(),
    {
        if self.bits <= 0 {
            return Err(Error::ArithmeticFailure);
        }
        if self.bits < 0x1_0000_0000 {
            let squared: i128 = 0x1_0000_0000_0000_0000;
            proof {
                lemma_reciprocal_deficiency(self@);
                assert(unit() * unit() == 0x1_0000_0000_0000_0000) by (nonlinear_arith)
                    requires
                        unit() == 0x1_0000_0000,
                ;
            }
            let quotient: i128 = match squared.checked_div_euclid(self.bits as i128) {
                Some(quotient) => quotient,
                None => 0,
            };
            let reciprocal: i64 = if quotient > 0x7fff_ffff_ffff_ffff {
                0x7fff_ffff_ffff_ffff
            } else {
                quotient as i64
            };
            return Ok(Fixed { bits: -ln_1p_lower_bits(reciprocal - 0x1_0000_0000) });
        }
        Ok(Fixed { bits: ln_1p_upper_bits(self.bits - 0x1_0000_0000) })
    }
}

/// There is exactly one lower bound on `ln(1 + y)`.
pub proof fn lemma_ln_1p_lower_unique(y: int, r: int)
    requires
        is_ln_1p_lower(y, r),
    ensures
        ln_1p_lower(y) == r,
{
    let c = ln_1p_lower(y);
    assert(is_ln_1p_lower(y, c));
    if c < r {
        assert(exp_m1_upper(r) > y);
    }
    if r < c {
        assert(exp_m1_upper(c) > y);
    }
}

/// The lower bound `r` on `ln(1 + y)` is indeed one: `y` is at least every
/// sum of the series of `exp(r) - 1`.
pub proof fn lemma_ln_1p_lower_sound(y: int, r: int, n: nat)
    requires
        is_ln_1p_lower(y, r),
    ensures
        unit() * series_num(r, n) <= y * series_den(n),
{
    lemma_exp_m1_upper_sound(r, n);
    lemma_series_signs(r, n);
    let d = series_den(n);
    let u = exp_m1_upper(r);
    assert(u * d <= y * d) by (nonlinear_arith)
        requires
            u <= y,
            d > 0,
    ;
}

/// Every non-negative `y` has a lower bound on `ln(1 + y)`.
pub proof fn lemma_ln_1p_lower_exists(y: int)
    requires
        0 <= y,
    ensures
        is_ln_1p_lower(y, ln_1p_lower(y)),
        0 <= ln_1p_lower(y) <= EXP_LIMIT_BITS,
{
    lemma_exp_m1_upper_zero();
    let r = lemma_greatest_within(y, 0);
    lemma_ln_1p_lower_unique(y, r);
}

proof fn lemma_greatest_within(y: int, lo: int) -> (r: int)
    requires
        0 <= lo <= EXP_LIMIT_BITS,
        exp_m1_upper(lo) <= y,
    ensures
        is_ln_1p_lower(y, r),
        lo <= r,
    decreases EXP_LIMIT_BITS - lo,
{
    if exists|q: int| lo < q <= EXP_LIMIT_BITS && exp_m1_upper(q) <= y {
        let q = choose|q: int| lo < q <= EXP_LIMIT_BITS && exp_m1_upper(q) <= y;
        lemma_greatest_within(y, q)
    } else {
        lo
    }
}

/// The lower bound of the logarithm grows with its argument.
pub proof fn lemma_ln_1p_lower_monotone(y1: int, y2: int, r1: int, r2: int)
    requires
        y1 <= y2,
        is_ln_1p_lower(y1, r1),
        is_ln_1p_lower(y2, r2),
    ensures
        r1 <= r2,
{
    if r2 < r1 {
        assert(exp_m1_upper(r1) > y2);
    }
}

/// The deficiency of `1 / z` for a positive `z` below one is at least one, is
/// at most `1 / z`, and shrinks as `z` grows.
pub proof fn lemma_reciprocal_deficiency(z: int)
    requires
        0 < z < unit(),
    ensures
        unit() <= reciprocal_deficiency(z) <= i64::MAX,
        reciprocal_deficiency(z) * z <= unit() * unit(),
        forall|larger: int|
            z <= larger < unit() ==> #[trigger] reciprocal_deficiency(larger)
                <= reciprocal_deficiency(z),
{
    let n = unit() * unit();
    assert(n == 0x1_0000_0000_0000_0000) by (nonlinear_arith)
        requires
            n == unit() * unit(),
            unit() == 0x1_0000_0000,
    ;
    lemma_div_brackets(n, z);
    let q = floor_div(n, z);
    assert(q >= unit()) by (nonlinear_arith)
        requires
            n < (q + 1) * z,
            0 < z < unit(),
            n == unit() * unit(),
            unit() > 0,
    ;
    assert(reciprocal_deficiency(z) * z <= n) by (nonlinear_arith)
        requires
            q * z <= n,
            0 <= reciprocal_deficiency(z) <= q,
            z > 0,
    ;
    assert forall|larger: int| z <= larger < unit() implies #[trigger] reciprocal_deficiency(larger)
        <= reciprocal_deficiency(z) by {
        vstd::arithmetic::div_mod::lemma_div_is_ordered_by_denominator(n, z, larger);
    }
}

/// The excess of `1 / z` for a positive `z` below one is at least one, is at
/// least `1 / z`, and shrinks as `z` grows.
pub proof fn lemma_reciprocal_excess(z: int)
    requires
        0 < z < unit(),
    ensures
        unit() <= ceil_div(unit() * unit(), z),
        unit() * unit() <= ceil_div(unit() * unit(), z) * z,
        forall|larger: int|
            z <= larger < unit() ==> #[trigger] ceil_div(unit() * unit(), larger) <= ceil_div(
                unit() * unit(),
                z,
            ),
{
    let n = unit() * unit();
    assert(n == 0x1_0000_0000_0000_0000) by (nonlinear_arith)
        requires
            n == unit() * unit(),
            unit() == 0x1_0000_0000,
    ;
    lemma_div_brackets(n, z);
    let q = ceil_div(n, z);
    assert(q >= unit()) by (nonlinear_arith)
        requires
            n <= q * z,
            0 < z < unit(),
            n == unit() * unit(),
            unit() > 0,
    ;
    assert forall|larger: int| z <= larger < unit() implies #[trigger] ceil_div(n, larger)
        <= ceil_div(n, z) by {
        crate::fixed::lemma_ceil_div_antitone(n, z, larger);
    }
}

/// Below one the lower bound of `ln` is indeed one, where the excess `w` of
/// `1 / z` is in range: with `r` for its negative, already the first
/// [`TERMS`] terms of the series of `exp(r) - 1` add up to `w - 1` or more,
/// and `w` is at least `1 / z`. So `exp(r) >= 1 / z`, and `-r <= ln(z)`.
pub proof fn lemma_neg_inf_ln_below_one_sound(z: Fixed)
    requires
        0 < z@ < unit(),
        ceil_div(unit() * unit(), z@) <= i64::MAX,
    ensures
        z.spec_neg_inf_ln() is Ok,
        (ceil_div(unit() * unit(), z@) - unit()) * series_den(TERMS as nat) <= unit() * series_num(
            -z.spec_neg_inf_ln()->Ok_0@,
            TERMS as nat,
        ),
        unit() * unit() <= ceil_div(unit() * unit(), z@) * z@,
{
    lemma_reciprocal_excess(z@);
    let y = ceil_div(unit() * unit(), z@) - unit();
    lemma_ln_1p_upper_exists(y);
    lemma_ln_1p_upper_sound(y, ln_1p_upper(y));
}

/// The lower bound of `ln` grows with its argument and is defined wherever
/// it is defined for a smaller argument. From one on it is not negative and
/// at most the largest argument of the exponential; below one it is not
/// positive.
pub proof fn lemma_neg_inf_ln_monotone(z1: Fixed, z2: Fixed)
    requires
        0 < z1@ <= z2@,
        z1.spec_neg_inf_ln() is Ok,
    ensures
        z2.spec_neg_inf_ln() is Ok,
        z1.spec_neg_inf_ln()->Ok_0@ <= z2.spec_neg_inf_ln()->Ok_0@,
        z2.spec_neg_inf_ln()->Ok_0@ <= EXP_LIMIT_BITS,
        z2@ < unit() ==> z2.spec_neg_inf_ln()->Ok_0@ <= 0,
        z1@ >= unit() ==> 0 <= z1.spec_neg_inf_ln()->Ok_0@,
{
    let n = unit() * unit();
    lemma_ln_1p_upper_exists(i64::MAX as int);
    lemma_ln_1p_upper_exists(unit());
    if z1@ >= unit() {
        lemma_ln_1p_lower_exists(z1@ - unit());
        lemma_ln_1p_lower_exists(z2@ - unit());
        lemma_ln_1p_lower_monotone(
            z1@ - unit(),
            z2@ - unit(),
            ln_1p_lower(z1@ - unit()),
            ln_1p_lower(z2@ - unit()),
        );
    } else {
        lemma_reciprocal_excess(z1@);
        let w1 = ceil_div(n, z1@);
        if w1 <= i64::MAX {
            lemma_ln_1p_upper_exists(w1 - unit());
        }
        if z2@ >= unit() {
            lemma_ln_1p_lower_exists(z2@ - unit());
        } else {
            lemma_reciprocal_excess(z2@);
            let w2 = ceil_div(n, z2@);
            assert(w2 <= w1);
            if w2 <= i64::MAX {
                lemma_ln_1p_upper_exists(w2 - unit());
                if w1 <= i64::MAX {
                    lemma_ln_1p_upper_monotone(
                        w2 - unit(),
                        w1 - unit(),
                        ln_1p_upper(w2 - unit()),
                        ln_1p_upper(w1 - unit()),
                    );
                } else {
                    lemma_ln_1p_upper_monotone(
                        w2 - unit(),
                        i64::MAX as int,
                        ln_1p_upper(w2 - unit()),
                        ln_1p_upper(i64::MAX as int),
                    );
                }
            }
        }
    }
}

/// Below one the upper bound of `ln` is indeed one: with `r` for its
/// negative and `w` for the deficiency of `1 / z`, `w - 1` is at least every
/// sum of the series of `exp(r) - 1`, and `w` is at most `1 / z`. So
/// `exp(r) <= 1 / z`, and `-r >= ln(z)`.
pub proof fn lemma_inf_ln_below_one_sound(z: Fixed, n: nat)
    requires
        0 < z@ < unit(),
    ensures
        z.spec_inf_ln() is Ok,
        unit() * series_num(-z.spec_inf_ln()->Ok_0@, n) <= (reciprocal_deficiency(z@) - unit())
            * series_den(n),
        reciprocal_deficiency(z@) * z@ <= unit() * unit(),
{
    lemma_reciprocal_deficiency(z@);
    let y = reciprocal_deficiency(z@) - unit();
    lemma_ln_1p_lower_exists(y);
    lemma_ln_1p_lower_sound(y, ln_1p_lower(y), n);
}

/// The upper bound of `ln` is defined for every positive number and grows
/// with its argument. From one on it is not negative, and below one it is not
/// positive.
pub proof fn lemma_inf_ln_monotone(z1: Fixed, z2: Fixed)
    requires
        0 < z1@ <= z2@,
    ensures
        z1.spec_inf_ln() is Ok,
        z2.spec_inf_ln() is Ok,
        z1.spec_inf_ln()->Ok_0@ <= z2.spec_inf_ln()->Ok_0@,
        -EXP_LIMIT_BITS <= z1.spec_inf_ln()->Ok_0@,
        z1@ >= unit() ==> 0 <= z1.spec_inf_ln()->Ok_0@,
        z2@ < unit() ==> z2.spec_inf_ln()->Ok_0@ <= 0,
{
    if z1@ >= unit() {
        lemma_ln_1p_upper_exists(z1@ - unit());
    } else {
        lemma_reciprocal_deficiency(z1@);
        lemma_ln_1p_lower_exists(reciprocal_deficiency(z1@) - unit());
    }
    if z2@ >= unit() {
        lemma_ln_1p_upper_exists(z2@ - unit());
    } else {
        lemma_reciprocal_deficiency(z2@);
        lemma_ln_1p_lower_exists(reciprocal_deficiency(z2@) - unit());
    }
    if z1@ >= unit() {
        lemma_ln_1p_upper_monotone(
            z1@ - unit(),
            z2@ - unit(),
            ln_1p_upper(z1@ - unit()),
            ln_1p_upper(z2@ - unit()),
        );
    } else if z2@ < unit() {
        let y1 = reciprocal_deficiency(z1@) - unit();
        let y2 = reciprocal_deficiency(z2@) - unit();
        assert(reciprocal_deficiency(z2@) <= reciprocal_deficiency(z1@));
        lemma_ln_1p_lower_monotone(y2, y1, ln_1p_lower(y2), ln_1p_lower(y1));
    }
}

fn wide_ceil(n: i128, d: i128) -> (q: i128)
    requires
        d > 0,
        0 <= n <= 0x4000_0000_0000_0000_0000_0000_0000_0000,
    ensures
        q == ceil_div(n as int, d as int),
        0 <= q <= n,
{
    proof {
        lemma_div_brackets(n as int, d as int);
        lemma_div_monotone(0, n as int, d as int);
        assert(ceil_div(0, d as int) == 0);
        assert(ceil_div(n as int, d as int) <= n) by (nonlinear_arith)
            requires
                d >= 1,
                n >= 0,
                (ceil_div(n as int, d as int) - 1) * d < n,
        ;
    }
    match (-n).checked_div_euclid(d) {
        Some(q) => -q,
        None => 0,
    }
}

fn wide_floor(n: i128, d: i128) -> (q: i128)
    requires
        d > 0,
        0 <= n,
    ensures
        q == floor_div(n as int, d as int),
        0 <= q <= n,
{
    proof {
        lemma_div_brackets(n as int, d as int);
        lemma_div_monotone(0, n as int, d as int);
        assert(floor_div(0, d as int) == 0);
        assert(floor_div(n as int, d as int) <= n) by (nonlinear_arith)
            requires
                d >= 1,
                n >= 0,
                floor_div(n as int, d as int) * d <= n,
                floor_div(n as int, d as int) >= 0,
        ;
    }
    match n.checked_div_euclid(d) {
        Some(q) => q,
        None => 0,
    }
}

/// Whether the lower bound of the exponential at `a` reaches `y`.
fn lower_bound_reaches(a: i64, y: i64) -> (r: bool)
    requires
        a >= 0,
        y >= 0,
    ensures
        r == (exp_m1_lower(a as int) >= y),
{
    if a >= y {
        proof {
            lemma_exp_m1_lower_monotone(a as int, a as int);
        }
        return true;
    }
    let wide: i128 = a as i128;
    let mut term: i128 = wide;
    let mut sum: i128 = wide;
    let mut k: u32 = 1;
    proof {
        lemma_first_terms(a as int);
    }
    while k < TERMS
        invariant
            1 <= k <= TERMS,
            0 <= wide <= i64::MAX,
            wide == a,
            term == lower_term(a as int, k as nat),
            sum == lower_sum(a as int, k as nat),
            0 <= term <= sum < y,
        decreases TERMS - k,
    {
        let d: i128 = 0x1_0000_0000 * ((k + 1) as i128);
        assert(0 <= term * wide <= i64::MAX * i64::MAX) by (nonlinear_arith)
            requires
                0 <= term <= i64::MAX,
                0 <= wide <= i64::MAX,
        ;
        let next = wide_floor(term * wide, d);
        k = k + 1;
        assert(next <= i64::MAX * i64::MAX);
        term = next;
        sum = sum + term;
        if sum >= y as i128 {
            proof {
                lemma_sums_monotone(a as int, a as int, k as nat, TERMS as nat);
            }
            return true;
        }
    }
    false
}

/// Whether the upper bound of the exponential at `a` is at most `y`.
fn upper_bound_within(a: i64, y: i64) -> (r: bool)
    requires
        0 <= a <= EXP_LIMIT_BITS,
        y >= 0,
    ensures
        r == (exp_m1_upper(a as int) <= y),
{
    if a > y {
        proof {
            lemma_exp_m1_upper_monotone(a as int, a as int);
        }
        return false;
    }
    let wide: i128 = a as i128;
    let mut term: i128 = wide;
    let mut sum: i128 = wide;
    let mut k: u32 = 1;
    proof {
        lemma_first_terms(a as int);
    }
    while k < TERMS
        invariant
            1 <= k <= TERMS,
            0 <= wide <= EXP_LIMIT_BITS,
            wide == a,
            term == upper_term(a as int, k as nat),
            sum == upper_sum(a as int, k as nat),
            0 <= term <= sum <= y,
        decreases TERMS - k,
    {
        let d: i128 = 0x1_0000_0000 * ((k + 1) as i128);
        assert(0 <= term * wide <= i64::MAX * EXP_LIMIT_BITS) by (nonlinear_arith)
            requires
                0 <= term <= i64::MAX,
                0 <= wide <= EXP_LIMIT_BITS,
        ;
        let next = wide_ceil(term * wide, d);
        k = k + 1;
        assert(next <= i64::MAX * EXP_LIMIT_BITS);
        term = next;
        sum = sum + term;
        if sum > y as i128 {
            proof {
                lemma_sums_monotone(a as int, a as int, k as nat, TERMS as nat);
                lemma_terms_monotone(a as int, a as int, TERMS as nat);
            }
            return false;
        }
    }
    sum + term <= y as i128
}

/// The greatest grid point at which the upper bound of the exponential is at
/// most `y`, found by bisection.
fn ln_1p_lower_bits(y: i64) -> (r: i64)
    requires
        y >= 0,
    ensures
        r == ln_1p_lower(y as int),
        0 <= r <= EXP_LIMIT_BITS,
{
    let mut lo: i64 = 0;
    let mut hi: i64 = EXP_LIMIT_BITS;
    proof {
        lemma_exp_m1_upper_zero();
    }
    while lo < hi
        invariant
            0 <= lo <= hi <= EXP_LIMIT_BITS,
            y >= 0,
            exp_m1_upper(lo as int) <= y,
            forall|q: int| hi < q <= EXP_LIMIT_BITS ==> #[trigger] exp_m1_upper(q) > y,
        decreases hi - lo,
    {
        let mid = hi - (hi - lo) / 2;
        if upper_bound_within(mid, y) {
            lo = mid;
        } else {
            proof {
                assert forall|q: int| mid - 1 < q <= EXP_LIMIT_BITS implies #[trigger] exp_m1_upper(q)
                    > y by {
                    lemma_exp_m1_upper_monotone(mid as int, q);
                }
            }
            hi = mid - 1;
        }
    }
    proof {
        lemma_ln_1p_lower_unique(y as int, lo as int);
    }
    lo
}

/// The least grid point at which the lower bound of the exponential reaches
/// `y`, found by bisection.
fn ln_1p_upper_bits(y: i64) -> (r: i64)
    requires
        y >= 0,
    ensures
        r == ln_1p_upper(y as int),
        0 <= r <= y,
{
    let mut lo: i64 = 0;
    let mut hi: i64 = y;
    proof {
        lemma_exp_m1_lower_monotone(y as int, y as int);
    }
    while lo < hi
        invariant
            0 <= lo <= hi <= y,
            exp_m1_lower(hi as int) >= y,
            forall|q: int| 0 <= q < lo ==> #[trigger] exp_m1_lower(q) < y,
        decreases hi - lo,
    {
        let mid = lo + (hi - lo) / 2;
        if lower_bound_reaches(mid, y) {
            hi = mid;
        } else {
            proof {
                assert forall|q: int| 0 <= q < mid + 1 implies #[trigger] exp_m1_lower(q) < y by {
                    lemma_exp_m1_lower_monotone(q, mid as int);
                }
            }
            lo = mid + 1;
        }
    }
    proof {
        lemma_ln_1p_upper_unique(y as int, lo as int);
    }
    lo
}

} // verus!
