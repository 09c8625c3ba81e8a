use swirl::scalar::{Scalar, SCALE_ONE};
use swirl::vector::Vector2;

fn s(n: i64, d: i64) -> Scalar {
    Scalar::from_ratio(n, d)
}

#[test]
fn whole_numbers_are_exact() {
    assert_eq!(Scalar::from_int(3).bits, 3 * SCALE_ONE);
    assert_eq!(Scalar::from_int(-2).bits, -2 * SCALE_ONE);
    assert_eq!(Scalar::zero().bits, 0);
    assert_eq!(Scalar::one().bits, SCALE_ONE);
    assert_eq!(Scalar::half().bits, SCALE_ONE / 2);
}

#[test]
fn addition_and_subtraction_are_exact_in_range() {
    assert_eq!(Scalar::from_int(3).add(Scalar::from_int(4)), Scalar::from_int(7));
    assert_eq!(Scalar::from_int(3).sub(Scalar::from_int(4)), Scalar::from_int(-1));
    assert_eq!(s(1, 2).add(s(1, 4)), s(3, 4));
}

#[test]
fn addition_saturates_at_the_extremes() {
    let top = Scalar { bits: i64::MAX };
    assert_eq!(top.add(Scalar::one()).bits, i64::MAX);
    let bottom = Scalar { bits: i64::MIN };
    assert_eq!(bottom.sub(Scalar::one()).bits, i64::MIN);
    assert_eq!(bottom.neg().bits, i64::MAX);
}

#[test]
fn multiplication_truncates_toward_zero() {
    assert_eq!(Scalar::from_int(6).mul(Scalar::from_int(7)), Scalar::from_int(42));
    assert_eq!(s(1, 2).mul(s(1, 2)), s(1, 4));
    // 1/3 is inexact; products truncate toward zero on both signs
    let third = s(1, 3);
    assert_eq!(third.bits, 21845);
    assert_eq!(third.mul(Scalar::from_int(3)).bits, 65535);
    assert_eq!(third.neg().mul(Scalar::from_int(3)).bits, -65535);
}

#[test]
fn division_is_total() {
    assert_eq!(Scalar::from_int(42).div(Scalar::from_int(7)), Scalar::from_int(6));
    assert_eq!(Scalar::from_int(1).div(Scalar::from_int(-2)), s(-1, 2));
    assert_eq!(Scalar::from_int(5).div(Scalar::zero()), Scalar::zero());
}

#[test]
fn floors_clamp_into_the_domain() {
    assert_eq!(s(5, 2).floor_clamped(10), 2);
    assert_eq!(Scalar::from_int(3).floor_clamped(10), 3);
    assert_eq!(Scalar::from_int(-3).floor_clamped(10), 0);
    assert_eq!(Scalar::from_int(42).floor_clamped(10), 10);
}

#[test]
fn vector_algebra_is_componentwise() {
    let a = Vector2 { x: Scalar::from_int(1), y: Scalar::from_int(2) };
    let b = Vector2 { x: Scalar::from_int(3), y: Scalar::from_int(-5) };
    let sum = a.add(b);
    assert_eq!(sum.x, Scalar::from_int(4));
    assert_eq!(sum.y, Scalar::from_int(-3));
    let scaled = b.mult(Scalar::from_int(2));
    assert_eq!(scaled.x, Scalar::from_int(6));
    assert_eq!(scaled.y, Scalar::from_int(-10));
    let halved = b.div(Scalar::from_int(2));
    assert_eq!(halved.x, s(3, 2));
    assert_eq!(halved.y, s(-5, 2));
}

#[test]
fn magnitude_of_a_pythagorean_vector_is_exact() {
    let v = Vector2 { x: Scalar::from_int(3), y: Scalar::from_int(4) };
    assert_eq!(v.get_mag(), Scalar::from_int(5));
    let z = Vector2 { x: Scalar::zero(), y: Scalar::zero() };
    assert_eq!(z.get_mag(), Scalar::zero());
}

#[test]
fn normalization_divides_by_the_magnitude() {
    let v = Vector2 { x: Scalar::from_int(3), y: Scalar::from_int(4) };
    let n = v.normalize();
    assert_eq!(n.x.bits, 39321);
    assert_eq!(n.y.bits, 52428);
    let z = Vector2 { x: Scalar::zero(), y: Scalar::zero() };
    assert_eq!(z.normalize(), z);
}

#[test]
fn magnitude_clamping_leaves_short_vectors_alone() {
    let v = Vector2 { x: Scalar::from_int(3), y: Scalar::from_int(4) };
    assert_eq!(v.max_mag(Scalar::from_int(6)), v);
    assert_eq!(v.max_mag(Scalar::from_int(5)), v);
    let clamped = v.max_mag(Scalar::from_int(1));
    assert_eq!(clamped.x.bits, 39321);
    assert_eq!(clamped.y.bits, 52428);
}
