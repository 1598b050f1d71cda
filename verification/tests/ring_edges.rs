use aritexpr::expression::ring::intring::{IntRing, IntRingElement};
use aritexpr::expression::ring::{Ring, RingElement, RingError};
use aritexpr::expression::{EvaluateExpressionError, ExpressionComponent};

fn overflow() -> RingError {
    RingError { message: "Overflow".to_string() }
}

#[test]
fn zero_is_neutral() {
    let five = IntRingElement::new(5);

    assert_eq!(IntRingElement::new(0), IntRing::zero());
    assert_eq!(Ok(IntRingElement::new(5)), IntRing::add(&five, &IntRing::zero()));
}

#[test]
fn results_at_the_limits() {
    let max = IntRingElement::new(i64::MAX);
    let min = IntRingElement::new(i64::MIN);
    let one = IntRingElement::new(1);
    let minus_one = IntRingElement::new(-1);

    assert_eq!(Ok(IntRingElement::new(i64::MAX - 1)), IntRing::sub(&max, &one));
    assert_eq!(Ok(IntRingElement::new(i64::MIN + 1)), IntRing::add(&min, &one));
    assert_eq!(Ok(IntRingElement::new(-i64::MAX)), IntRing::mul(&max, &minus_one));
    assert_eq!(Ok(IntRingElement::new(i64::MIN)), IntRing::div(&min, &one));
    assert_eq!(Ok(IntRingElement::new(1)), IntRing::div(&min, &min));
    assert_eq!(Ok(IntRingElement::new(0)), IntRing::div(&IntRingElement::new(0), &minus_one));
}

#[test]
fn overflow_at_the_limits() {
    let max = IntRingElement::new(i64::MAX);
    let min = IntRingElement::new(i64::MIN);
    let minus_one = IntRingElement::new(-1);

    assert_eq!(Err(overflow()), IntRing::sub(&IntRing::zero(), &min));
    assert_eq!(Err(overflow()), IntRing::mul(&min, &minus_one));
    assert_eq!(Err(overflow()), IntRing::mul(&max, &IntRingElement::new(2)));
    assert_eq!(Err(overflow()), IntRing::div(&min, &minus_one));
}

#[test]
fn division_of_negative_by_negative() {
    let res = IntRing::div(&IntRingElement::new(-6), &IntRingElement::new(-2));

    assert_eq!(Ok(IntRingElement::new(3)), res);
    assert_eq!(
        Err(RingError { message: "Result not in ring".to_string() }),
        IntRing::div(&IntRingElement::new(-5), &IntRingElement::new(-2))
    );
    assert_eq!(
        Err(RingError { message: "Result not in ring".to_string() }),
        IntRing::div(&IntRingElement::new(i64::MIN), &IntRingElement::new(3))
    );
}

#[test]
fn unary_minus_subtracts_from_zero() {
    let expression = ExpressionComponent::<IntRing>::new_unary_minus(
        ExpressionComponent::new_int_element(5),
    );

    assert_eq!(Ok(IntRingElement::new(-5)), expression.evaluate());
}

#[test]
fn unary_minus_of_least_integer_overflows() {
    let expression = ExpressionComponent::<IntRing>::new_unary_minus(
        ExpressionComponent::new_int_element(i64::MIN),
    );

    assert_eq!(
        Err(EvaluateExpressionError { message: "Overflow".to_string() }),
        expression.evaluate()
    );
}

#[test]
fn unary_minus_hands_on_a_failure() {
    let expression = ExpressionComponent::<IntRing>::new_unary_minus(
        ExpressionComponent::new_division(
            ExpressionComponent::new_int_element(5),
            ExpressionComponent::new_int_element(2),
        ),
    );

    assert_eq!(
        Err(EvaluateExpressionError { message: "Result not in ring".to_string() }),
        expression.evaluate()
    );
}

#[test]
fn clone_is_equal() {
    let expression = ExpressionComponent::<IntRing>::new_unary_minus(
        ExpressionComponent::new_parenteses(ExpressionComponent::new_division(
            ExpressionComponent::new_multiplication(
                ExpressionComponent::new_int_element(5),
                ExpressionComponent::new_int_element(2),
            ),
            ExpressionComponent::new_subtraction(
                ExpressionComponent::new_int_element(7),
                ExpressionComponent::new_addition(
                    ExpressionComponent::new_int_element(1),
                    ExpressionComponent::new_int_element(1),
                ),
            ),
        )),
    );

    assert_eq!(expression, expression.clone());
    assert_eq!(Ok(IntRingElement::new(-2)), expression.clone().evaluate());
}

#[test]
fn element_text() {
    assert_eq!("0", IntRingElement::new(0).to_string());
    assert_eq!("42", IntRingElement::new(42).to_string());
    assert_eq!("-42", IntRingElement::new(-42).to_string());
    assert_eq!("9223372036854775807", IntRingElement::new(i64::MAX).to_string());
    assert_eq!("-9223372036854775808", IntRingElement::new(i64::MIN).to_string());
}

#[test]
fn failure_texts() {
    assert_eq!("Overflow", overflow().to_string());
    assert_eq!(
        "Error evaluating expression: Overflow",
        EvaluateExpressionError::from(overflow()).to_string()
    );
}
