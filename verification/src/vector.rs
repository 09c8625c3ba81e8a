//! A minimal 2D vector over fixed-point scalars: the algebra the velocity
//! field needs (add, scale, divide), plus magnitude, normalization, and
//! clamping to a maximum magnitude.

use crate::scalar::{scalar_add, scalar_div, scalar_mul, Scalar};
use vstd::prelude::*;

verus! {

/// A 2D vector with fixed-point components.
#[derive(Clone, Copy, PartialEq, Eq, Structural, Debug)]
pub struct Vector2 {
    pub x: Scalar,
    pub y: Scalar,
}

/// The floor of the square root of a non-negative integer.
pub open spec fn floor_sqrt(n: int) -> int {
    choose|r: int| r >= 0 && #[trigger] (r * r) <= n < (r + 1) * (r + 1)
}

/// The floor square root is unique: any value whose square brackets `n`
/// is it.
pub proof fn lemma_floor_sqrt(n: int, r: int)
    requires
        r >= 0,
        r * r <= n,
        (r + 1) * (r + 1) > n,
    ensures
        floor_sqrt(n) == r,
{
    assert(exists|q: int| q >= 0 && #[trigger] (q * q) <= n < (q + 1) * (q + 1)) by {
        assert(r >= 0 && r * r <= n < (r + 1) * (r + 1));
    }
    let q = floor_sqrt(n);
    assert(q >= 0 && q * q <= n < (q + 1) * (q + 1));
    assert(q == r) by (nonlinear_arith)
        requires
            q >= 0,
            r >= 0,
            q * q <= n,
            (q + 1) * (q + 1) > n,
            r * r <= n,
            (r + 1) * (r + 1) > n,
    ;
}

/// The magnitude of a vector, in bit units: the floor square root of the sum
/// of the squared component bits, saturated at the representable maximum.
pub open spec fn mag_bits(v: Vector2) -> int {
    let s = v.x.bits * v.x.bits + v.y.bits * v.y.bits;
    if floor_sqrt(s) > i64::MAX as int {
        i64::MAX as int
    } else {
        floor_sqrt(s)
    }
}

/// What `Vector2::get_mag` returns.
pub open spec fn vector_mag(v: Vector2) -> Scalar {
    Scalar { bits: mag_bits(v) as i64 }
}

/// What `Vector2::normalize` returns: the vector unchanged when its
/// magnitude is zero, else each component divided by the magnitude.
pub open spec fn normalize_spec(v: Vector2) -> Vector2 {
    if vector_mag(v).bits == 0 {
        v
    } else {
        Vector2 { x: scalar_div(v.x, vector_mag(v)), y: scalar_div(v.y, vector_mag(v)) }
    }
}

/// What `Vector2::set_mag` returns: the normalized vector scaled to the
/// requested magnitude.
pub open spec fn set_mag_spec(v: Vector2, m: Scalar) -> Vector2 {
    let n = normalize_spec(v);
    Vector2 { x: scalar_mul(n.x, m), y: scalar_mul(n.y, m) }
}

/// Floor square root of a 128-bit value, by bisection.
fn isqrt_u128(s: u128) -> (r: u128)
    ensures
        r * r <= s,
        (r as int + 1) * (r as int + 1) > s,
        r <= 0xffff_ffff_ffff_ffff,
{
    let mut lo: u128 = 0;
    let mut hi: u128 = 0x1_0000_0000_0000_0000;
    proof {
        assert((hi as int) * (hi as int) > u128::MAX as int) by (nonlinear_arith)
            requires
                hi == 0x1_0000_0000_0000_0000,
        ;
    }
    while hi - lo > 1
        invariant
            lo < hi <= 0x1_0000_0000_0000_0000,
            (lo as int) * (lo as int) <= s as int,
            (hi as int) * (hi as int) > s as int,
        decreases hi - lo,
    {
        let mid = lo + (hi - lo) / 2;
        proof {
            assert((mid as int) * (mid as int) <= u128::MAX as int) by (nonlinear_arith)
                requires
                    0 <= mid <= 0xffff_ffff_ffff_ffff,
            ;
        }
        if mid * mid <= s {
            lo = mid;
        } else {
            hi = mid;
        }
    }
    lo
}

impl Vector2 {
    /// Build a vector from its components.
    pub fn new(x: Scalar, y: Scalar) -> (r: Vector2)
        ensures
            r == (Vector2 { x, y }),
    {
        Vector2 { x, y }
    }

    /// Componentwise saturating addition.
    pub fn add(self, other: Vector2) -> (r: Vector2)
        ensures
            r == (Vector2 { x: scalar_add(self.x, other.x), y: scalar_add(self.y, other.y) }),
    {
        Vector2 { x: self.x.add(other.x), y: self.y.add(other.y) }
    }

    /// Scale both components by a fixed-point factor.
    pub fn mult(self, mag: Scalar) -> (r: Vector2)
        ensures
            r == (Vector2 { x: scalar_mul(self.x, mag), y: scalar_mul(self.y, mag) }),
    {
        Vector2 { x: self.x.mul(mag), y: self.y.mul(mag) }
    }

    /// Divide both components by a fixed-point factor.
    pub fn div(self, mag: Scalar) -> (r: Vector2)
        ensures
            r == (Vector2 { x: scalar_div(self.x, mag), y: scalar_div(self.y, mag) }),
    {
        Vector2 { x: self.x.div(mag), y: self.y.div(mag) }
    }

    /// The magnitude of the vector, saturated at the representable maximum.
    pub fn get_mag(self) -> (r: Scalar)
        ensures
            r == vector_mag(self),
    {
        proof {
            crate::scalar::lemma_i64_product_bounds(self.x.bits as int, self.x.bits as int);
            crate::scalar::lemma_i64_product_bounds(self.y.bits as int, self.y.bits as int);
            assert((self.x.bits as int) * (self.x.bits as int) >= 0 && (self.y.bits as int) * (
            self.y.bits as int) >= 0) by (nonlinear_arith);
            assert((self.x.bits as int) * (self.x.bits as int) <= 0x4000_0000_0000_0000_0000_0000_0000_0000
                && (self.y.bits as int) * (self.y.bits as int)
                <= 0x4000_0000_0000_0000_0000_0000_0000_0000) by (nonlinear_arith)
                requires
                    -0x8000_0000_0000_0000 <= self.x.bits <= 0x7fff_ffff_ffff_ffff,
                    -0x8000_0000_0000_0000 <= self.y.bits <= 0x7fff_ffff_ffff_ffff,
            ;
        }
        let sx: i128 = (self.x.bits as i128) * (self.x.bits as i128);
        let sy: i128 = (self.y.bits as i128) * (self.y.bits as i128);
        let s: u128 = (sx as u128) + (sy as u128);
        let rt = isqrt_u128(s);
        proof {
            lemma_floor_sqrt(s as int, rt as int);
        }
        if rt > i64::MAX as u128 {
            Scalar { bits: i64::MAX }
        } else {
            Scalar { bits: rt as i64 }
        }
    }

    /// Scale the vector to unit magnitude; the zero vector stays zero.
    pub fn normalize(self) -> (r: Vector2)
        ensures
            r == normalize_spec(self),
    {
        let mag = self.get_mag();
        if mag.bits == 0 {
            self
        } else {
            self.div(mag)
        }
    }

    /// Scale the vector to the given magnitude.
    pub fn set_mag(self, mag: Scalar) -> (r: Vector2)
        ensures
            r == set_mag_spec(self, mag),
    {
        self.normalize().mult(mag)
    }

    /// Clamp the vector's magnitude to at most `max`; shorter vectors pass
    /// through unchanged.
    pub fn max_mag(self, max: Scalar) -> (r: Vector2)
        ensures
            r == (if vector_mag(self).bits > max.bits {
                set_mag_spec(self, max)
            } else {
                self
            }),
    {
        if self.get_mag().gt(max) {
            self.set_mag(max)
        } else {
            self
        }
    }
}

impl crate::matrix::FieldValue for Vector2 {
    open spec fn zero_spec() -> Vector2 {
        Vector2 { x: Scalar { bits: 0 }, y: Scalar { bits: 0 } }
    }

    open spec fn add_spec(a: Vector2, b: Vector2) -> Vector2 {
        Vector2 { x: scalar_add(a.x, b.x), y: scalar_add(a.y, b.y) }
    }

    open spec fn scale_spec(a: Vector2, k: Scalar) -> Vector2 {
        Vector2 { x: scalar_mul(a.x, k), y: scalar_mul(a.y, k) }
    }

    open spec fn div_spec(a: Vector2, k: Scalar) -> Vector2 {
        Vector2 { x: scalar_div(a.x, k), y: scalar_div(a.y, k) }
    }

    fn zero() -> (r: Vector2) {
        Vector2 { x: Scalar::zero(), y: Scalar::zero() }
    }

    fn add(a: Vector2, b: Vector2) -> (r: Vector2) {
        Vector2 { x: a.x.add(b.x), y: a.y.add(b.y) }
    }

    fn scale(a: Vector2, k: Scalar) -> (r: Vector2) {
        Vector2 { x: a.x.mul(k), y: a.y.mul(k) }
    }

    fn div_by(a: Vector2, k: Scalar) -> (r: Vector2) {
        Vector2 { x: a.x.div(k), y: a.y.div(k) }
    }

    proof fn lemma_add_zero(a: Vector2) {
    }

    proof fn lemma_scale_one(a: Vector2) {
        crate::scalar::lemma_mul_one_exact(a.x.bits as int);
        crate::scalar::lemma_mul_one_exact(a.y.bits as int);
    }

    proof fn lemma_scale_zero(a: Vector2, k: Scalar) {
        crate::scalar::lemma_mul_zero(a.x.bits as int);
        crate::scalar::lemma_mul_zero(a.y.bits as int);
        assert(crate::scalar::mul_bits(0, k.bits as int) == 0);
    }
}

} // verus!
