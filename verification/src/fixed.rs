//! Signed fixed-point numbers with 32 fractional bits, and arithmetic on them
//! that rounds in a stated direction.
//!
//! A [`Fixed`] with raw value `b` stands for the rational `b / 2^32`. Sums and
//! differences of two such numbers are again on the grid, so they are exact.
//! Products and quotients are not: each comes in a variant that rounds toward
//! positive infinity (`inf_*`, the excess) and one that rounds toward negative
//! infinity (`neg_inf_*`, the deficiency). Whatever leaves the range of the
//! raw `i64` is reported as [`Error::ArithmeticFailure`].

use vstd::prelude::*;
use crate::error::{Error, Fallible};

verus! {

/// The raw value of the number one: `2^32`.
pub const ONE_BITS: i64 = 0x1_0000_0000;

/// The denominator shared by all raw values.
pub open spec fn unit() -> int {
    0x1_0000_0000
}

/// The largest integer `q` with `q * d <= n`, for a positive `d`.
pub open spec fn floor_div(n: int, d: int) -> int
    recommends
        d > 0,
{
    n / d
}

/// The smallest integer `q` with `q * d >= n`, for a positive `d`.
pub open spec fn ceil_div(n: int, d: int) -> int
    recommends
        d > 0,
{
    -((-n) / d)
}

/// Whether `v` is the raw value of some [`Fixed`].
pub open spec fn in_range(v: int) -> bool {
    i64::MIN <= v <= i64::MAX
}

/// The number with raw value `v`, or the failure that `v` is out of range.
pub open spec fn checked(v: int) -> Fallible<Fixed> {
    if in_range(v) {
        Ok(Fixed { bits: v as i64 })
    } else {
        Err(Error::ArithmeticFailure)
    }
}

/// The numerator of the quotient `a / b` in raw units, over the positive
/// denominator [`quotient_den`].
pub open spec fn quotient_num(a: int, b: int) -> int {
    if b > 0 {
        a * unit()
    } else {
        -a * unit()
    }
}

/// The absolute value of the divisor `b`.
pub open spec fn quotient_den(b: int) -> int {
    if b > 0 {
        b
    } else {
        -b
    }
}

/// `floor_div` and `ceil_div` bracket the exact quotient, and lie less than one
/// apart from it.
pub proof fn lemma_div_brackets(n: int, d: int)
    requires
        d > 0,
    ensures
        floor_div(n, d) * d <= n < (floor_div(n, d) + 1) * d,
        (ceil_div(n, d) - 1) * d < n <= ceil_div(n, d) * d,
        floor_div(n, d) <= ceil_div(n, d) <= floor_div(n, d) + 1,
{
    vstd::arithmetic::div_mod::lemma_fundamental_div_mod(n, d);
    vstd::arithmetic::div_mod::lemma_fundamental_div_mod(-n, d);
    vstd::arithmetic::div_mod::lemma_mod_bound(n, d);
    vstd::arithmetic::div_mod::lemma_mod_bound(-n, d);
    let q = n / d;
    let c = (-n) / d;
    assert(n == d * q + n % d);
    assert(-n == d * c + (-n) % d);
    assert(floor_div(n, d) * d == d * q) by (nonlinear_arith)
        requires
            floor_div(n, d) == q,
    ;
    assert((floor_div(n, d) + 1) * d == d * q + d) by (nonlinear_arith)
        requires
            floor_div(n, d) == q,
    ;
    assert(ceil_div(n, d) * d == -(d * c)) by (nonlinear_arith)
        requires
            ceil_div(n, d) == -c,
    ;
    assert((ceil_div(n, d) - 1) * d == -(d * c) - d) by (nonlinear_arith)
        requires
            ceil_div(n, d) == -c,
    ;
    assert(floor_div(n, d) <= ceil_div(n, d) <= floor_div(n, d) + 1) by (nonlinear_arith)
        requires
            d > 0,
            floor_div(n, d) * d <= n < (floor_div(n, d) + 1) * d,
            (ceil_div(n, d) - 1) * d < n <= ceil_div(n, d) * d,
    ;
}

/// Both roundings of a quotient grow with the numerator.
pub proof fn lemma_div_monotone(n1: int, n2: int, d: int)
    requires
        d > 0,
        n1 <= n2,
    ensures
        floor_div(n1, d) <= floor_div(n2, d),
        ceil_div(n1, d) <= ceil_div(n2, d),
{
    vstd::arithmetic::div_mod::lemma_div_is_ordered(n1, n2, d);
    vstd::arithmetic::div_mod::lemma_div_is_ordered(-n2, -n1, d);
}

/// The excess rounding of a quotient of non-negative numbers shrinks as the
/// denominator grows.
pub proof fn lemma_ceil_div_antitone(n: int, d1: int, d2: int)
    requires
        0 <= n,
        0 < d1 <= d2,
    ensures
        0 <= ceil_div(n, d2) <= ceil_div(n, d1),
{
    lemma_div_brackets(n, d1);
    lemma_div_brackets(n, d2);
    lemma_div_monotone(0, n, d1);
    lemma_div_monotone(0, n, d2);
    assert(ceil_div(0, d1) == 0 && ceil_div(0, d2) == 0);
    let c1 = ceil_div(n, d1);
    let c2 = ceil_div(n, d2);
    assert(c2 <= c1) by (nonlinear_arith)
        requires
            0 <= c1,
            0 < d1 <= d2,
            n <= c1 * d1,
            (c2 - 1) * d2 < n,
    ;
}

/// A signed fixed-point number: `bits / 2^32`.
#[derive(Clone, Copy, Debug, PartialEq, Eq, Structural, Hash)]
pub struct Fixed {
    pub bits: i64,
}

impl View for Fixed {
    type V = int;

    /// The raw value: the number multiplied by `2^32`.
    open spec fn view(&self) -> int {
        self.bits as int
    }
}

impl Fixed {
    /// The number with the given raw value.
    pub fn from_bits(bits: i64) -> (r: Fixed)
        ensures
            r@ == bits,
    {
        Fixed { bits }
    }

    /// The raw value of the number.
    pub fn to_bits(&self) -> (r: i64)
        ensures
            r == self@,
    {
        self.bits
    }

    pub fn zero() -> (r: Fixed)
        ensures
            r@ == 0,
    {
        Fixed { bits: 0 }
    }

    pub fn one() -> (r: Fixed)
        ensures
            r@ == unit(),
    {
        Fixed { bits: ONE_BITS }
    }

    /// The smallest positive number: one step of the grid.
    pub fn step() -> (r: Fixed)
        ensures
            r@ == 1,
    {
        Fixed { bits: 1 }
    }

    pub fn is_zero(&self) -> (r: bool)
        ensures
            r == (self@ == 0),
    {
        self.bits == 0
    }

    pub fn is_sign_negative(&self) -> (r: bool)
        ensures
            r == (self@ < 0),
    {
        self.bits < 0
    }

    pub fn le(&self, other: &Fixed) -> (r: bool)
        ensures
            r == (self@ <= other@),
    {
        self.bits <= other.bits
    }

    pub fn lt(&self, other: &Fixed) -> (r: bool)
        ensures
            r == (self@ < other@),
    {
        self.bits < other.bits
    }

    /// The integer `v` as a fixed-point number. Every integer is on the grid,
    /// so the cast is exact whenever it succeeds.
    pub open spec fn spec_exact_int_cast(v: int) -> Fallible<Fixed> {
        checked(v * unit())
    }

    pub fn exact_int_cast(v: i64) -> (r: Fallible<Fixed>)
        ensures
            r == Self::spec_exact_int_cast(v as int),
    {
        match v.checked_mul(ONE_BITS) {
            Some(bits) => Ok(Fixed { bits }),
            None => Err(Error::ArithmeticFailure),
        }
    }

    /// A length or a count as a fixed-point number, exactly.
    pub fn exact_size_cast(v: usize) -> (r: Fallible<Fixed>)
        ensures
            r == Self::spec_exact_int_cast(v as int),
    {
        if v > 0x7fff_ffff {
            assert(v * unit() > i64::MAX) by (nonlinear_arith)
                requires
                    v > 0x7fff_ffff,
                    unit() == 0x1_0000_0000,
            ;
            Err(Error::ArithmeticFailure)
        } else {
            Self::exact_int_cast(v as i64)
        }
    }

    /// The integer nearest to the number; a number halfway between two
    /// integers goes to the larger.
    pub open spec fn spec_round(&self) -> int {
        floor_div(self@ + unit() / 2, unit())
    }

    pub fn round(&self) -> (r: i64)
        ensures
            r == self.spec_round(),
    {
        let wide: i128 = self.bits as i128 + 0x8000_0000;
        let q = wide.checked_div_euclid(0x1_0000_0000);
        match q {
            Some(v) => {
                assert(i64::MIN <= v <= i64::MAX) by (nonlinear_arith)
                    requires
                        v == wide / 0x1_0000_0000,
                        i64::MIN <= wide <= i64::MAX + 0x8000_0000,
                ;
                v as i64
            },
            None => 0,
        }
    }

    /// The sum, which is exact.
    pub open spec fn spec_add(&self, other: &Fixed) -> Fallible<Fixed> {
        checked(self@ + other@)
    }

    /// The difference, which is exact.
    pub open spec fn spec_sub(&self, other: &Fixed) -> Fallible<Fixed> {
        checked(self@ - other@)
    }

    /// The product, rounded toward positive infinity.
    pub open spec fn spec_inf_mul(&self, other: &Fixed) -> Fallible<Fixed> {
        checked(ceil_div(self@ * other@, unit()))
    }

    /// The product, rounded toward negative infinity.
    pub open spec fn spec_neg_inf_mul(&self, other: &Fixed) -> Fallible<Fixed> {
        checked(floor_div(self@ * other@, unit()))
    }

    /// The quotient, rounded toward positive infinity. Division by zero fails.
    pub open spec fn spec_inf_div(&self, other: &Fixed) -> Fallible<Fixed> {
        if other@ == 0 {
            Err(Error::ArithmeticFailure)
        } else {
            checked(ceil_div(quotient_num(self@, other@), quotient_den(other@)))
        }
    }

    /// The quotient, rounded toward negative infinity. Division by zero fails.
    pub open spec fn spec_neg_inf_div(&self, other: &Fixed) -> Fallible<Fixed> {
        if other@ == 0 {
            Err(Error::ArithmeticFailure)
        } else {
            checked(floor_div(quotient_num(self@, other@), quotient_den(other@)))
        }
    }

    pub fn inf_add(&self, other: &Fixed) -> (r: Fallible<Fixed>)
        ensures
            r == self.spec_add(other),
    {
        match self.bits.checked_add(other.bits) {
            Some(bits) => Ok(Fixed { bits }),
            None => Err(Error::ArithmeticFailure),
        }
    }

    pub fn neg_inf_add(&self, other: &Fixed) -> (r: Fallible<Fixed>)
        ensures
            r == self.spec_add(other),
    {
        self.inf_add(other)
    }

    pub fn inf_sub(&self, other: &Fixed) -> (r: Fallible<Fixed>)
        ensures
            r == self.spec_sub(other),
    {
        match self.bits.checked_sub(other.bits) {
            Some(bits) => Ok(Fixed { bits }),
            None => Err(Error::ArithmeticFailure),
        }
    }

    pub fn neg_inf_sub(&self, other: &Fixed) -> (r: Fallible<Fixed>)
        ensures
            r == self.spec_sub(other),
    {
        self.inf_sub(other)
    }

    pub fn inf_mul(&self, other: &Fixed) -> (r: Fallible<Fixed>)
        ensures
            r == self.spec_inf_mul(other),
    {
        let p = wide_product(self.bits, other.bits);
        narrow(wide_ceil_div(p, 0x1_0000_0000))
    }

    /// The excess product in raw units, before it is held against the range.
    pub fn inf_mul_wide(&self, other: &Fixed) -> (r: i128)
        ensures
            r == ceil_div(self@ * other@, unit()),
            wide_ok(r as int),
    {
        let p = wide_product(self.bits, other.bits);
        wide_ceil_div(p, 0x1_0000_0000)
    }

    pub fn neg_inf_mul(&self, other: &Fixed) -> (r: Fallible<Fixed>)
        ensures
            r == self.spec_neg_inf_mul(other),
    {
        let p = wide_product(self.bits, other.bits);
        narrow(wide_floor_div(p, 0x1_0000_0000))
    }

    pub fn inf_div(&self, other: &Fixed) -> (r: Fallible<Fixed>)
        ensures
            r == self.spec_inf_div(other),
    {
        if other.bits == 0 {
            return Err(Error::ArithmeticFailure);
        }
        let (n, d) = wide_quotient(self.bits, other.bits);
        narrow(wide_ceil_div(n, d))
    }

    pub fn neg_inf_div(&self, other: &Fixed) -> (r: Fallible<Fixed>)
        ensures
            r == self.spec_neg_inf_div(other),
    {
        if other.bits == 0 {
            return Err(Error::ArithmeticFailure);
        }
        let (n, d) = wide_quotient(self.bits, other.bits);
        narrow(wide_floor_div(n, d))
    }
}

/// A sum or a difference is exact: it is the excess and the deficiency at
/// once, no less and no more than the exact result.
pub proof fn lemma_sum_direction(a: Fixed, b: Fixed)
    ensures
        a.spec_add(&b) is Ok ==> a.spec_add(&b)->Ok_0@ == a@ + b@,
        a.spec_sub(&b) is Ok ==> a.spec_sub(&b)->Ok_0@ == a@ - b@,
        a.spec_add(&b) is Ok <==> in_range(a@ + b@),
        a.spec_sub(&b) is Ok <==> in_range(a@ - b@),
{
}

/// The excess product is at least the exact product and less than one step of
/// the grid above it; the deficiency is at most the exact product and less
/// than one step below it. Exact products are compared in units of `2^-64`.
pub proof fn lemma_product_direction(a: Fixed, b: Fixed)
    ensures
        a.spec_inf_mul(&b) is Ok ==> (a.spec_inf_mul(&b)->Ok_0@ - 1) * unit() < a@ * b@
            <= a.spec_inf_mul(&b)->Ok_0@ * unit(),
        a.spec_neg_inf_mul(&b) is Ok ==> a.spec_neg_inf_mul(&b)->Ok_0@ * unit() <= a@ * b@ < (
        a.spec_neg_inf_mul(&b)->Ok_0@ + 1) * unit(),
{
    lemma_div_brackets(a@ * b@, unit());
}

/// The excess quotient by a positive number is at least the exact quotient
/// and less than one step of the grid above it; the deficiency is at most the
/// exact quotient and less than one step below it. The quotients are
/// compared after multiplying them by the divisor.
pub proof fn lemma_quotient_direction(a: Fixed, b: Fixed)
    requires
        b@ > 0,
    ensures
        a.spec_inf_div(&b) is Ok ==> (a.spec_inf_div(&b)->Ok_0@ - 1) * b@ < a@ * unit()
            <= a.spec_inf_div(&b)->Ok_0@ * b@,
        a.spec_neg_inf_div(&b) is Ok ==> a.spec_neg_inf_div(&b)->Ok_0@ * b@ <= a@ * unit() < (
        a.spec_neg_inf_div(&b)->Ok_0@ + 1) * b@,
{
    lemma_div_brackets(a@ * unit(), b@);
}

/// The excess product of non-negative numbers grows with its first factor,
/// and is defined wherever it is defined for a larger factor.
pub proof fn lemma_inf_mul_monotone(a1: Fixed, a2: Fixed, b: Fixed)
    requires
        0 <= a1@ <= a2@,
        0 <= b@,
        a2.spec_inf_mul(&b) is Ok,
    ensures
        a1.spec_inf_mul(&b) is Ok,
        0 <= a1.spec_inf_mul(&b)->Ok_0@ <= a2.spec_inf_mul(&b)->Ok_0@,
{
    assert(0 <= a1@ * b@ <= a2@ * b@) by (nonlinear_arith)
        requires
            0 <= a1@ <= a2@,
            0 <= b@,
    ;
    lemma_div_monotone(0, a1@ * b@, unit());
    lemma_div_monotone(a1@ * b@, a2@ * b@, unit());
    assert(ceil_div(0, unit()) == 0);
}

/// The excess quotient of a non-negative number by a positive one grows with
/// the dividend, and is defined wherever it is defined for a larger dividend.
pub proof fn lemma_inf_div_monotone(a1: Fixed, a2: Fixed, b: Fixed)
    requires
        0 <= a1@ <= a2@,
        0 < b@,
        a2.spec_inf_div(&b) is Ok,
    ensures
        a1.spec_inf_div(&b) is Ok,
        0 <= a1.spec_inf_div(&b)->Ok_0@ <= a2.spec_inf_div(&b)->Ok_0@,
        a1@ > 0 ==> a1.spec_inf_div(&b)->Ok_0@ > 0,
{
    assert(0 <= a1@ * unit() <= a2@ * unit()) by (nonlinear_arith)
        requires
            0 <= a1@ <= a2@,
            unit() > 0,
    ;
    lemma_div_monotone(0, a1@ * unit(), b@);
    lemma_div_monotone(a1@ * unit(), a2@ * unit(), b@);
    assert(ceil_div(0, b@) == 0);
    if a1@ > 0 {
        lemma_div_brackets(a1@ * unit(), b@);
        assert(ceil_div(a1@ * unit(), b@) > 0) by (nonlinear_arith)
            requires
                a1@ * unit() <= ceil_div(a1@ * unit(), b@) * b@,
                a1@ > 0,
                unit() > 0,
                b@ > 0,
        ;
    }
}

/// The excess quotient of a non-negative number shrinks as the divisor grows,
/// and is defined wherever it is defined for a smaller divisor.
pub proof fn lemma_inf_div_antitone(a: Fixed, b1: Fixed, b2: Fixed)
    requires
        0 <= a@,
        0 < b1@ <= b2@,
        a.spec_inf_div(&b1) is Ok,
    ensures
        a.spec_inf_div(&b2) is Ok,
        0 <= a.spec_inf_div(&b2)->Ok_0@ <= a.spec_inf_div(&b1)->Ok_0@,
{
    assert(0 <= a@ * unit()) by (nonlinear_arith)
        requires
            0 <= a@,
            unit() > 0,
    ;
    lemma_ceil_div_antitone(a@ * unit(), b1@, b2@);
}

/// What a 128-bit intermediate may hold: anything of magnitude up to `2^126`.
pub open spec fn wide_ok(v: int) -> bool {
    -0x4000_0000_0000_0000_0000_0000_0000_0000 <= v <= 0x4000_0000_0000_0000_0000_0000_0000_0000
}

fn wide_product(a: i64, b: i64) -> (p: i128)
    ensures
        p == a * b,
        wide_ok(p as int),
{
    assert(wide_ok(a * b)) by (nonlinear_arith)
        requires
            -0x8000_0000_0000_0000 <= a <= 0x8000_0000_0000_0000,
            -0x8000_0000_0000_0000 <= b <= 0x8000_0000_0000_0000,
    ;
    (a as i128) * (b as i128)
}

fn wide_quotient(a: i64, b: i64) -> (r: (i128, i128))
    requires
        b != 0,
    ensures
        r.0 == quotient_num(a as int, b as int),
        r.1 == quotient_den(b as int),
        r.1 > 0,
        wide_ok(r.0 as int),
{
    assert(wide_ok(a * unit())) by (nonlinear_arith)
        requires
            -0x8000_0000_0000_0000 <= a <= 0x8000_0000_0000_0000,
            unit() == 0x1_0000_0000,
    ;
    let n: i128 = (a as i128) * 0x1_0000_0000;
    if b > 0 {
        (n, b as i128)
    } else {
        assert(-a * unit() == -(a * unit())) by (nonlinear_arith);
        (-n, -(b as i128))
    }
}

fn wide_floor_div(n: i128, d: i128) -> (q: i128)
    requires
        d > 0,
        wide_ok(n as int),
    ensures
        q == floor_div(n as int, d as int),
        wide_ok(q as int),
{
    proof {
        lemma_div_brackets(n as int, d as int);
        assert(wide_ok(n as int / d as int)) by (nonlinear_arith)
            requires
                d > 0,
                wide_ok(n as int),
                (n as int / d as int) * d <= n < (n as int / d as int + 1) * d,
        ;
    }
    match n.checked_div_euclid(d) {
        Some(q) => q,
        None => 0,
    }
}

fn wide_ceil_div(n: i128, d: i128) -> (q: i128)
    requires
        d > 0,
        wide_ok(n as int),
    ensures
        q == ceil_div(n as int, d as int),
        wide_ok(q as int),
{
    -wide_floor_div(-n, d)
}

fn narrow(v: i128) -> (r: Fallible<Fixed>)
    ensures
        r == checked(v as int),
{
    if v < -0x8000_0000_0000_0000 || v > 0x7fff_ffff_ffff_ffff {
        Err(Error::ArithmeticFailure)
    } else {
        Ok(Fixed { bits: v as i64 })
    }
}

} // verus!
