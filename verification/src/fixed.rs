//! Fixed-point plane coordinates and complex numbers.
//!
//! A coordinate is an `i64` whose real value is the stored number divided
//! by [`SCALE`]. Products of two coordinates are divided by `SCALE` again,
//! truncating toward zero, so every operation is exactly defined over the
//! integers.

use vstd::prelude::*;

verus! {

/// One unit of the plane, as a raw fixed-point value: coordinates store
/// the real value times this factor.
pub const SCALE: i64 = 65536;

/// Largest raw magnitude a plane coordinate may have. Keeps every
/// intermediate product of the escape iteration inside `i64`.
pub const MAX_COORD: i64 = 1073741824;

/// Bound on the factors accepted by [`mul_div_tz`]: their product then
/// stays within `i64`.
pub const FACTOR_BOUND: i64 = 2147483648;

/// A point of the complex plane in fixed-point form.
#[derive(Clone, Copy, PartialEq, Eq, Structural, Debug)]
pub struct Complex {
    pub re: i64,
    pub im: i64,
}

impl Complex {
    /// The point as a pair of mathematical integers (raw fixed-point values).
    pub open spec fn s(self) -> (int, int) {
        (self.re as int, self.im as int)
    }

    /// Both raw coordinates are within [`MAX_COORD`].
    pub open spec fn in_range(self) -> bool {
        -MAX_COORD <= self.re <= MAX_COORD && -MAX_COORD <= self.im <= MAX_COORD
    }
}

/// Quotient of `p` by `d`, truncated toward zero (the rounding every
/// fixed-point product uses).
pub open spec fn div_tz(p: int, d: int) -> int
    recommends
        d > 0,
{
    if p >= 0 {
        p / d
    } else {
        -((-p) / d)
    }
}

/// A bound on the operand gives a bound on the truncated quotient.
pub proof fn lemma_div_tz_bound(p: int, d: int, m: int)
    requires
        d >= 1,
        m >= 0,
        -m <= p <= m,
    ensures
        -(m / d) <= div_tz(p, d) <= m / d,
        p >= 0 ==> 0 <= div_tz(p, d),
        p <= 0 ==> div_tz(p, d) <= 0,
{
    vstd::arithmetic::div_mod::lemma_div_of0(d);
    if p >= 0 {
        vstd::arithmetic::div_mod::lemma_div_pos_is_pos(p, d);
        vstd::arithmetic::div_mod::lemma_div_is_ordered(p, m, d);
    } else {
        vstd::arithmetic::div_mod::lemma_div_pos_is_pos(-p, d);
        vstd::arithmetic::div_mod::lemma_div_is_ordered(-p, m, d);
    }
}

/// The magnitude of `x` as a `u64`.
pub(crate) fn abs_u64(x: i64) -> (r: u64)
    requires
        x > i64::MIN,
    ensures
        x >= 0 ==> r == x,
        x < 0 ==> r == -(x as int),
{
    if x >= 0 {
        x as u64
    } else {
        (-x) as u64
    }
}

/// `(a * b) / d`, truncated toward zero.
pub(crate) fn mul_div_tz(a: i64, b: i64, d: u64) -> (r: i64)
    requires
        d >= 1,
        -FACTOR_BOUND <= a <= FACTOR_BOUND,
        -FACTOR_BOUND <= b <= FACTOR_BOUND,
    ensures
        r == div_tz(a * b, d as int),
{
    let neg: bool = (a < 0) != (b < 0);
    let ma: u64 = abs_u64(a);
    let mb: u64 = abs_u64(b);
    assert(ma * mb <= 0x4000_0000_0000_0000u64 && (if neg {
        a * b == -(ma * mb)
    } else {
        a * b == ma * mb
    })) by (nonlinear_arith)
        requires
            -FACTOR_BOUND <= a <= FACTOR_BOUND,
            -FACTOR_BOUND <= b <= FACTOR_BOUND,
            ma == (if a >= 0 { a as int } else { -(a as int) }),
            mb == (if b >= 0 { b as int } else { -(b as int) }),
            neg == ((a < 0) != (b < 0)),
    ;
    let p: u64 = ma * mb;
    let q: u64 = p / d;
    assert(q <= p) by {
        vstd::arithmetic::div_mod::lemma_div_is_ordered_by_denominator(p as int, 1, d as int);
    }
    if neg {
        assert(div_tz(a * b, d as int) == -(q as int));
        -(q as i64)
    } else {
        q as i64
    }
}

} // verus!
