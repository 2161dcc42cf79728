//! Fixed-point decimal amounts: prices, sizes, notionals and P&L.
//!
//! A `Decimal` holds an integer count of billionths. Addition and
//! subtraction are exact; a product or a quotient is truncated toward zero
//! at the ninth fractional digit.

use vstd::prelude::*;

verus! {

/// Number of fractional units in one whole unit.
pub const SCALE: i128 = 1_000_000_000;

/// Largest raw magnitude of an amount that the library accepts as input.
pub const MAX_RAW: i128 = 1_000_000_000_000_000_000;

/// Largest value of a product of two in-range amounts: `MAX_RAW * MAX_RAW / SCALE`.
pub const MAX_NOTIONAL: i128 = 1_000_000_000_000_000_000_000_000_000;

/// Largest magnitude of an `i128` that is safe to negate.
pub const I128_LIMIT: i128 = 170141183460469231731687303715884105727;

/// Whether an exact integer fits in an `i128` whose negation also fits.
pub open spec fn fits(x: int) -> bool {
    -I128_LIMIT <= x <= I128_LIMIT
}

pub open spec fn abs_int(x: int) -> int {
    if x < 0 { -x } else { x }
}

/// Integer division rounded toward zero.
pub open spec fn trunc_div(a: int, b: int) -> int {
    let q = abs_int(a) / abs_int(b);
    if (a >= 0) == (b > 0) || a == 0 { q } else { -q }
}

/// Raw value of the fixed-point product of two raw values.
pub open spec fn mul_raw(a: int, b: int) -> int {
    trunc_div(a * b, SCALE as int)
}

/// Raw value of the fixed-point quotient of two raw values.
pub open spec fn div_raw(a: int, b: int) -> int {
    trunc_div(a * SCALE, b)
}

pub open spec fn min_int(a: int, b: int) -> int {
    if a <= b { a } else { b }
}

pub open spec fn pow10(k: nat) -> int
    decreases k,
{
    if k == 0 { 1 } else { 10 * pow10((k - 1) as nat) }
}

/// Drops `k` trailing decimal digits, rounding toward zero.
pub open spec fn drop_digits(m: int, k: nat) -> int
    decreases k,
{
    if k == 0 { m } else { drop_digits(trunc_div(m, 10), (k - 1) as nat) }
}

/// Raw value of `mantissa / 10^scale` at nine fractional digits.
pub open spec fn raw_from_parts(mantissa: int, scale: nat) -> int {
    if scale <= 9 {
        mantissa * pow10((9 - scale) as nat)
    } else {
        drop_digits(mantissa, (scale - 9) as nat)
    }
}

/// A fixed-point decimal with nine fractional digits: `raw / 10^9`.
#[derive(Clone, Copy, Debug, PartialEq, Eq, Structural, PartialOrd, Ord, Hash)]
pub struct Decimal {
    pub raw: i128,
}

/// Exact integer quotient rounded toward zero.
pub fn div_trunc(a: i128, b: i128) -> (r: i128)
    requires
        b != 0,
        fits(a as int),
        fits(b as int),
    ensures
        r == trunc_div(a as int, b as int),
        abs_int(r as int) <= abs_int(a as int),
{
    let ua: i128 = if a < 0 { -a } else { a };
    let ub: i128 = if b < 0 { -b } else { b };
    let q: i128 = ua / ub;
    assert(q <= ua) by (nonlinear_arith)
        requires ub >= 1, ua >= 0, q == ua / ub;
    if (a >= 0) == (b > 0) || a == 0 {
        q
    } else {
        -q
    }
}

/// `10^k` for a small `k`.
pub fn pow10_small(k: u32) -> (r: i128)
    requires
        k <= 9,
    ensures
        r == pow10(k as nat),
        1 <= r <= SCALE,
{
    reveal_with_fuel(pow10, 10);
    match k {
        0 => 1,
        1 => 10,
        2 => 100,
        3 => 1_000,
        4 => 10_000,
        5 => 100_000,
        6 => 1_000_000,
        7 => 10_000_000,
        8 => 100_000_000,
        _ => 1_000_000_000,
    }
}

impl Decimal {
    /// An amount within the input range of the library.
    pub open spec fn bounded(self) -> bool {
        -MAX_RAW <= self.raw <= MAX_RAW
    }

    /// The amount as a rational number's numerator over `SCALE`.
    pub open spec fn value(self) -> int {
        self.raw as int
    }

    pub fn zero() -> (r: Decimal)
        ensures
            r.raw == 0,
    {
        Decimal { raw: 0 }
    }

    /// `num / 10^scale`, as in `Decimal::new(45, 2)` for 0.45.
    pub fn new(num: i64, scale: u32) -> (r: Decimal)
        requires
            scale <= 9,
        ensures
            r.raw == num * pow10((9 - scale) as nat),
    {
        let f = pow10_small(9 - scale);
        let n = num as i128;
        assert(-9_223_372_036_854_775_808 * SCALE <= n * f <= 9_223_372_036_854_775_807 * SCALE)
            by (nonlinear_arith)
            requires
                -9_223_372_036_854_775_808 <= n <= 9_223_372_036_854_775_807,
                1 <= f <= SCALE,
        ;
        Decimal { raw: n * f }
    }

    /// A whole number of units.
    pub fn from_int(n: i64) -> (r: Decimal)
        ensures
            r.raw == n * SCALE,
    {
        reveal_with_fuel(pow10, 10);
        Decimal::new(n, 0)
    }

    pub fn add(self, o: Decimal) -> (r: Decimal)
        requires
            fits(self.raw + o.raw),
        ensures
            r.raw == self.raw + o.raw,
    {
        Decimal { raw: self.raw + o.raw }
    }

    pub fn sub(self, o: Decimal) -> (r: Decimal)
        requires
            fits(self.raw - o.raw),
        ensures
            r.raw == self.raw - o.raw,
    {
        Decimal { raw: self.raw - o.raw }
    }

    pub fn neg(self) -> (r: Decimal)
        requires
            fits(self.raw as int),
        ensures
            r.raw == -self.raw,
    {
        Decimal { raw: -self.raw }
    }

    pub fn abs(self) -> (r: Decimal)
        requires
            fits(self.raw as int),
        ensures
            r.raw == abs_int(self.raw as int),
    {
        if self.raw < 0 {
            Decimal { raw: -self.raw }
        } else {
            self
        }
    }

    pub fn min(self, o: Decimal) -> (r: Decimal)
        ensures
            r.raw == min_int(self.raw as int, o.raw as int),
    {
        if self.raw <= o.raw {
            self
        } else {
            o
        }
    }

    /// Fixed-point product, truncated toward zero.
    pub fn mul(self, o: Decimal) -> (r: Decimal)
        requires
            fits(self.raw * o.raw),
        ensures
            r.raw == mul_raw(self.raw as int, o.raw as int),
    {
        let p = self.raw * o.raw;
        Decimal { raw: div_trunc(p, SCALE) }
    }

    /// Fixed-point quotient, truncated toward zero.
    pub fn div(self, o: Decimal) -> (r: Decimal)
        requires
            o.raw != 0,
            fits(self.raw * SCALE),
            fits(o.raw as int),
        ensures
            r.raw == div_raw(self.raw as int, o.raw as int),
    {
        let p = self.raw * SCALE;
        Decimal { raw: div_trunc(p, o.raw) }
    }

    pub fn is_zero(self) -> (r: bool)
        ensures
            r == (self.raw == 0),
    {
        self.raw == 0
    }
}

/// Truncated division never grows a magnitude bound when dividing by at least one.
pub proof fn lemma_trunc_div_bound(a: int, b: int, m: int)
    requires
        b >= 1,
        -m <= a <= m,
    ensures
        -(m / b) <= trunc_div(a, b) <= m / b,
{
    let ua = if a < 0 { -a } else { a };
    assert(ua <= m);
    assert(ua / b <= m / b) by (nonlinear_arith)
        requires ua <= m, b >= 1, ua >= 0;
    assert(ua / b >= 0) by (nonlinear_arith)
        requires b >= 1, ua >= 0;
}

/// Product of two in-range amounts: no overflow, and a bounded fixed-point result.
pub proof fn lemma_mul_raw_bound(a: int, b: int)
    requires
        -MAX_RAW <= a <= MAX_RAW,
        -MAX_RAW <= b <= MAX_RAW,
    ensures
        -MAX_RAW * MAX_RAW <= a * b <= MAX_RAW * MAX_RAW,
        fits(a * b),
        -MAX_NOTIONAL <= mul_raw(a, b) <= MAX_NOTIONAL,
{
    assert(-MAX_RAW * MAX_RAW <= a * b <= MAX_RAW * MAX_RAW) by (nonlinear_arith)
        requires -MAX_RAW <= a <= MAX_RAW, -MAX_RAW <= b <= MAX_RAW;
    lemma_trunc_div_bound(a * b, SCALE as int, MAX_RAW * MAX_RAW);
    assert((MAX_RAW * MAX_RAW) as int / (SCALE as int) == MAX_NOTIONAL);
}

} // verus!
