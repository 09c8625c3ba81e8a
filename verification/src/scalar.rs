//! Exact fixed-point arithmetic for field values.
//!
//! A `Scalar` holds a signed quantity in units of `1 / SCALE_ONE` (so a `bits`
//! field of `SCALE_ONE` stands for one whole unit). All operations saturate at
//! the representable range instead of overflowing, and division truncates
//! toward zero; each operation's contract states its result exactly.

use vstd::prelude::*;

verus! {

/// Number of fixed-point units in one whole unit (2^16).
pub const SCALE_ONE: i64 = 65536;

/// Saturate an unbounded integer into the `i64` range.
pub open spec fn clip(v: int) -> int {
    if v < i64::MIN as int {
        i64::MIN as int
    } else if v > i64::MAX as int {
        i64::MAX as int
    } else {
        v
    }
}

/// Magnitude of an unbounded integer.
pub open spec fn iabs(v: int) -> int {
    if v < 0 {
        -v
    } else {
        v
    }
}

/// Integer division truncated toward zero (the rounding used by all
/// fixed-point operations here).
pub open spec fn tdiv(a: int, b: int) -> int
    recommends
        b != 0,
{
    if (a < 0) == (b < 0) {
        iabs(a) / iabs(b)
    } else {
        -(iabs(a) / iabs(b))
    }
}

/// What `Scalar::mul` returns, on bit patterns.
pub open spec fn mul_bits(a: int, b: int) -> int {
    clip(tdiv(a * b, SCALE_ONE as int))
}

/// What `Scalar::div` returns, on bit patterns. Division by zero yields zero,
/// so the operation is total.
pub open spec fn div_bits(a: int, b: int) -> int {
    if b == 0 {
        0
    } else {
        clip(tdiv(a * SCALE_ONE, b))
    }
}

/// A signed fixed-point number: `bits / SCALE_ONE` units.
#[derive(Clone, Copy, PartialEq, Eq, Structural, Debug)]
pub struct Scalar {
    pub bits: i64,
}

/// What `Scalar::from_int` returns.
pub open spec fn scalar_of_int(n: int) -> Scalar {
    Scalar { bits: clip(n * SCALE_ONE) as i64 }
}

/// What `Scalar::add` returns.
pub open spec fn scalar_add(a: Scalar, b: Scalar) -> Scalar {
    Scalar { bits: clip(a.bits + b.bits) as i64 }
}

/// What `Scalar::sub` returns.
pub open spec fn scalar_sub(a: Scalar, b: Scalar) -> Scalar {
    Scalar { bits: clip(a.bits - b.bits) as i64 }
}

/// What `Scalar::neg` returns.
pub open spec fn scalar_neg(a: Scalar) -> Scalar {
    Scalar { bits: clip(-a.bits) as i64 }
}

/// What `Scalar::mul` returns.
pub open spec fn scalar_mul(a: Scalar, b: Scalar) -> Scalar {
    Scalar { bits: mul_bits(a.bits as int, b.bits as int) as i64 }
}

/// What `Scalar::div` returns.
pub open spec fn scalar_div(a: Scalar, b: Scalar) -> Scalar {
    Scalar { bits: div_bits(a.bits as int, b.bits as int) as i64 }
}

/// The whole-unit floor of a scalar, clamped into `[0, hi]`.
pub open spec fn clamped_floor(s: Scalar, hi: int) -> int {
    if s.bits < 0 {
        0
    } else if s.bits as int / (SCALE_ONE as int) > hi {
        hi
    } else {
        s.bits as int / (SCALE_ONE as int)
    }
}

/// Saturate an `i128` into the `i64` range.
fn clip_i128(w: i128) -> (r: i64)
    ensures
        r as int == clip(w as int),
{
    if w > i64::MAX as i128 {
        i64::MAX
    } else if w < i64::MIN as i128 {
        i64::MIN
    } else {
        w as i64
    }
}

/// Divide, truncating toward zero, with a positive divisor.
fn tdiv_i128(a: i128, d: i128) -> (r: i128)
    requires
        d > 0,
        a > i128::MIN,
    ensures
        r as int == tdiv(a as int, d as int),
{
    if a >= 0 {
        let q: u128 = (a as u128) / (d as u128);
        q as i128
    } else {
        let q: u128 = ((-a) as u128) / (d as u128);
        assert(q <= (-a) as u128) by {
            vstd::arithmetic::div_mod::lemma_div_is_ordered_by_denominator(
                (-a) as int,
                1,
                d as int,
            );
        }
        -(q as i128)
    }
}

impl Scalar {
    /// The zero quantity.
    pub fn zero() -> (r: Scalar)
        ensures
            r.bits == 0,
    {
        Scalar { bits: 0 }
    }

    /// One whole unit.
    pub fn one() -> (r: Scalar)
        ensures
            r.bits == SCALE_ONE,
    {
        Scalar { bits: SCALE_ONE }
    }

    /// Half of one whole unit.
    pub fn half() -> (r: Scalar)
        ensures
            r.bits == SCALE_ONE / 2,
    {
        Scalar { bits: SCALE_ONE / 2 }
    }

    /// The whole number `n`, saturated into range.
    pub fn from_int(n: i64) -> (r: Scalar)
        ensures
            r.bits as int == clip(n * SCALE_ONE),
            r == scalar_of_int(n as int),
    {
        proof {
            lemma_i64_product_bounds(n as int, SCALE_ONE as int);
        }
        let w: i128 = (n as i128) * (SCALE_ONE as i128);
        Scalar { bits: clip_i128(w) }
    }

    /// The exact fraction `n / d`, saturated into range (zero when `d` is 0).
    pub fn from_ratio(n: i64, d: i64) -> (r: Scalar)
        ensures
            r.bits as int == div_bits(clip(n * SCALE_ONE), clip(d * SCALE_ONE)),
    {
        Scalar::from_int(n).div(Scalar::from_int(d))
    }

    /// Saturating addition.
    pub fn add(self, other: Scalar) -> (r: Scalar)
        ensures
            r.bits as int == clip(self.bits + other.bits),
            r == scalar_add(self, other),
    {
        let w: i128 = (self.bits as i128) + (other.bits as i128);
        Scalar { bits: clip_i128(w) }
    }

    /// Saturating subtraction.
    pub fn sub(self, other: Scalar) -> (r: Scalar)
        ensures
            r.bits as int == clip(self.bits - other.bits),
            r == scalar_sub(self, other),
    {
        let w: i128 = (self.bits as i128) - (other.bits as i128);
        Scalar { bits: clip_i128(w) }
    }

    /// Saturating negation.
    pub fn neg(self) -> (r: Scalar)
        ensures
            r.bits as int == clip(-self.bits),
            r == scalar_neg(self),
    {
        let w: i128 = -(self.bits as i128);
        Scalar { bits: clip_i128(w) }
    }

    /// Fixed-point multiplication, truncated toward zero and saturated.
    pub fn mul(self, other: Scalar) -> (r: Scalar)
        ensures
            r.bits as int == mul_bits(self.bits as int, other.bits as int),
            r == scalar_mul(self, other),
    {
        proof {
            lemma_i64_product_bounds(self.bits as int, other.bits as int);
        }
        let p: i128 = (self.bits as i128) * (other.bits as i128);
        Scalar { bits: clip_i128(tdiv_i128(p, SCALE_ONE as i128)) }
    }

    /// Fixed-point division, truncated toward zero and saturated; division by
    /// zero yields zero.
    pub fn div(self, other: Scalar) -> (r: Scalar)
        ensures
            r.bits as int == div_bits(self.bits as int, other.bits as int),
            r == scalar_div(self, other),
    {
        if other.bits == 0 {
            Scalar { bits: 0 }
        } else {
            proof {
                lemma_i64_product_bounds(self.bits as int, SCALE_ONE as int);
            }
            let n: i128 = (self.bits as i128) * (SCALE_ONE as i128);
            let q: i128 = if other.bits < 0 {
                let t = tdiv_i128(n, -(other.bits as i128));
                assert(tdiv(n as int, -(other.bits as int)) == -tdiv(n as int, other.bits as int));
                -t
            } else {
                tdiv_i128(n, other.bits as i128)
            };
            Scalar { bits: clip_i128(q) }
        }
    }

    /// Floor to whole units, clamped into `[0, hi]`.
    pub fn floor_clamped(self, hi: usize) -> (r: usize)
        requires
            hi <= 0x7fff_ffff,
        ensures
            r == clamped_floor(self, hi as int),
            r <= hi,
    {
        if self.bits < 0 {
            0
        } else {
            let q: u64 = (self.bits as u64) / (SCALE_ONE as u64);
            if q >= hi as u64 {
                hi
            } else {
                q as usize
            }
        }
    }

    /// Whether this quantity is strictly less than `other`.
    pub fn lt(self, other: Scalar) -> (r: bool)
        ensures
            r == (self.bits < other.bits),
    {
        self.bits < other.bits
    }

    /// Whether this quantity is strictly greater than `other`.
    pub fn gt(self, other: Scalar) -> (r: bool)
        ensures
            r == (self.bits > other.bits),
    {
        self.bits > other.bits
    }
}

/// The product of two `i64` values stays strictly inside the `i128` range.
pub proof fn lemma_i64_product_bounds(a: int, b: int)
    requires
        i64::MIN <= a <= i64::MAX,
        i64::MIN <= b <= i64::MAX,
    ensures
        i128::MIN < a * b < i128::MAX,
{
    assert(i128::MIN < a * b < i128::MAX) by (nonlinear_arith)
        requires
            -0x8000_0000_0000_0000 <= a <= 0x7fff_ffff_ffff_ffff,
            -0x8000_0000_0000_0000 <= b <= 0x7fff_ffff_ffff_ffff,
    ;
}

/// Scaling by one whole unit is exact: multiplying any bit pattern by
/// `SCALE_ONE` and truncating back returns the original value.
pub proof fn lemma_mul_one_exact(a: int)
    requires
        i64::MIN <= a <= i64::MAX,
    ensures
        mul_bits(a, SCALE_ONE as int) == a,
{
    let d = SCALE_ONE as int;
    assert(iabs(a * d) == iabs(a) * d) by (nonlinear_arith)
        requires
            d > 0,
    ;
    vstd::arithmetic::div_mod::lemma_div_multiples_vanish(iabs(a), d);
    assert(d * iabs(a) == iabs(a) * d);
    assert(iabs(a) / d >= 0) by {
        vstd::arithmetic::div_mod::lemma_div_is_ordered(0, iabs(a), d);
    }
    assert(tdiv(a * d, d) == a);
}

/// Scaling by a zero factor yields zero.
pub proof fn lemma_mul_zero(a: int)
    ensures
        mul_bits(a, 0) == 0,
{
    assert(a * 0 == 0);
}

} // verus!
