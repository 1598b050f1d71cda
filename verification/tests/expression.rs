use aritexpr::expression::ring::intring::{IntRing, IntRingElement};
use aritexpr::expression::{EvaluateExpressionError, ExpressionComponent};

#[test]
fn expression_simple_value() {
    let element = IntRingElement::new(5);
    let expression = ExpressionComponent::<IntRing>::new_ring_element(element.clone());

    assert_eq!(Ok(element), expression.evaluate());
}

#[test]
fn addition() {
    let expression = ExpressionComponent::<IntRing>::new_addition(
        ExpressionComponent::new_ring_element(IntRingElement::new(5)),
        ExpressionComponent::new_ring_element(IntRingElement::new(7)),
    );

    assert_eq!(Ok(IntRingElement::new(12)), expression.evaluate());
}

#[test]
fn addition_overflow() {
    let expression = ExpressionComponent::<IntRing>::new_addition(
        ExpressionComponent::new_ring_element(IntRingElement::new(i64::MAX)),
        ExpressionComponent::new_ring_element(IntRingElement::new(7)),
    );

    assert_eq!(
        Err(EvaluateExpressionError { message: "Overflow".to_string() }),
        expression.evaluate()
    );
}

#[test]
fn subtraction() {
    let expression = ExpressionComponent::<IntRing>::new_subtraction(
        ExpressionComponent::new_ring_element(IntRingElement::new(5)),
        ExpressionComponent::new_ring_element(IntRingElement::new(7)),
    );

    assert_eq!(Ok(IntRingElement::new(-2)), expression.evaluate());
}

#[test]
fn multiplication() {
    let expression = ExpressionComponent::<IntRing>::new_multiplication(
        ExpressionComponent::new_ring_element(IntRingElement::new(5)),
        ExpressionComponent::new_ring_element(IntRingElement::new(7)),
    );

    assert_eq!(Ok(IntRingElement::new(35)), expression.evaluate());
}

#[test]
fn division() {
    let expression = ExpressionComponent::<IntRing>::new_division(
        ExpressionComponent::new_ring_element(IntRingElement::new(6)),
        ExpressionComponent::new_ring_element(IntRingElement::new(2)),
    );

    assert_eq!(Ok(IntRingElement::new(3)), expression.evaluate());
}

#[test]
fn parenthesis() {
    let expression = ExpressionComponent::<IntRing>::new_parenteses(
        ExpressionComponent::new_ring_element(IntRingElement::new(5)),
    );

    assert_eq!(Ok(IntRingElement::new(5)), expression.evaluate());
}
