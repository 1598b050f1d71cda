use aritexpr::expression::parser::ParseExpressionErrorKind::TokenParseError;
use aritexpr::expression::parser::{parse_int_ring_expression, ParseExpressionError};
use aritexpr::expression::ring::intring::IntRingElement;
use aritexpr::expression::ExpressionComponent;

fn evaluates_to_itself(n: i64) {
    let text = n.to_string();
    let expression = parse_int_ring_expression(&text).expect("ok");
    assert_eq!(ExpressionComponent::new_int_element(n), expression);
    assert_eq!(Ok(IntRingElement::new(n)), expression.evaluate());
}

#[test]
fn decimal_text_of_zero_round_trips() {
    evaluates_to_itself(0);
}

#[test]
fn decimal_text_of_positive_numbers_round_trips() {
    evaluates_to_itself(7);
    evaluates_to_itself(1234567890);
    evaluates_to_itself(i64::MAX);
}

#[test]
fn decimal_text_of_negative_numbers_round_trips() {
    evaluates_to_itself(-1);
    evaluates_to_itself(-5);
    evaluates_to_itself(-i64::MAX);
}

#[test]
fn decimal_text_of_least_integer_is_too_big() {
    let expression_result = parse_int_ring_expression(&i64::MIN.to_string());

    assert_eq!(
        Err(ParseExpressionError {
            message: "Decimal number too big".to_string(),
            position: 1,
            kind: TokenParseError
        }),
        expression_result
    );
}
