use aritexpr::expression::ring::intring::{IntRing, IntRingElement};
use aritexpr::expression::ring::{Ring, RingError};

#[test]
fn intring_add() {
    let elm1 = IntRingElement::new(5);
    let elm2 = IntRingElement::new(-3);

    let res = IntRing::add(&elm1, &elm2);

    assert_eq!(Ok(IntRingElement::new(2)), res);
}

#[test]
fn add_overflow() {
    let elm1 = IntRingElement::new(i64::MAX);
    let elm2 = IntRingElement::new(1);

    let res = IntRing::add(&elm1, &elm2);

    assert_eq!(Err(RingError{message: "Overflow".to_string()}), res);
}

#[test]
fn intring_sub() {
    let elm1 = IntRingElement::new(5);
    let elm2 = IntRingElement::new(2);

    let res = IntRing::sub(&elm1, &elm2);

    assert_eq!(Ok(IntRingElement::new(3)), res);
}

#[test]
fn sub_overflow() {
    let elm1 = IntRingElement::new(i64::MIN);
    let elm2 = IntRingElement::new(1);

    let res = IntRing::sub(&elm1, &elm2);

    assert_eq!(Err(RingError{message: "Overflow".to_string()}), res);
}

#[test]
fn intring_mul() {
    let elm1 = IntRingElement::new(5);
    let elm2 = IntRingElement::new(2);

    let res = IntRing::mul(&elm1, &elm2);

    assert_eq!(Ok(IntRingElement::new(10)), res);
}

#[test]
fn mul2() {
    let elm1 = IntRingElement::new(5);
    let elm2 = IntRingElement::new(-2);

    let res = IntRing::mul(&elm1, &elm2);

    assert_eq!(Ok(IntRingElement::new(-10)), res);
}

#[test]
fn mul_overflow() {
    let elm1 = IntRingElement::new(i64::MAX);
    let elm2 = IntRingElement::new(2);

    let res = IntRing::mul(&elm1, &elm2);

    assert_eq!(Err(RingError{message: "Overflow".to_string()}), res);
}

#[test]
fn div1() {
    let elm1 = IntRingElement::new(6);
    let elm2 = IntRingElement::new(2);

    let res = IntRing::div(&elm1, &elm2);

    assert_eq!(Ok(IntRingElement::new(3)), res);
}

#[test]
fn div2() {
    let elm1 = IntRingElement::new(-6);
    let elm2 = IntRingElement::new(2);

    let res = IntRing::div(&elm1, &elm2);

    assert_eq!(Ok(IntRingElement::new(-3)), res);
}

#[test]
fn div3() {
    let elm1 = IntRingElement::new(6);
    let elm2 = IntRingElement::new(-2);

    let res = IntRing::div(&elm1, &elm2);

    assert_eq!(Ok(IntRingElement::new(-3)), res);
}

#[test]
fn div_zero() {
    let elm1 = IntRingElement::new(2);
    let elm2 = IntRingElement::new(0);

    let res = IntRing::div(&elm1, &elm2);

    assert_eq!(Err(RingError{message: "Overflow".to_string()}), res);
}

#[test]
fn div_zero2() {
    let elm1 = IntRingElement::new(0);
    let elm2 = IntRingElement::new(0);

    let res = IntRing::div(&elm1, &elm2);

    assert_eq!(Err(RingError{message: "Overflow".to_string()}), res);
}

#[test]
fn div_not_int() {
    let elm1 = IntRingElement::new(5);
    let elm2 = IntRingElement::new(2);

    let res = IntRing::div(&elm1, &elm2);

    assert_eq!(Err(RingError{message: "Result not in ring".to_string()}), res);
}

#[test]
fn div_not_int2() {
    let elm1 = IntRingElement::new(-5);
    let elm2 = IntRingElement::new(2);

    let res = IntRing::div(&elm1, &elm2);

    assert_eq!(Err(RingError{message: "Result not in ring".to_string()}), res);
}

#[test]
fn div_not_int3() {
    let elm1 = IntRingElement::new(5);
    let elm2 = IntRingElement::new(-2);

    let res = IntRing::div(&elm1, &elm2);

    assert_eq!(Err(RingError{message: "Result not in ring".to_string()}), res);
}
