use aritexpr::expression::parser::ParseExpressionErrorKind::{NoExpression, Unspecified};
use aritexpr::expression::parser::{
    parse_int_ring_expression, parse_int_ring_expression_from_tokens, ParseExpressionError,
};
use aritexpr::expression::ring::intring::{IntRing, IntRingElement};
use aritexpr::expression::ring::RingElement;
use aritexpr::expression::{EvaluateExpressionError, ExpressionComponent};
use aritexpr::token::intring::IntRingToken;
use aritexpr::token::TokenWithPos;

fn leaf(value: i64) -> ExpressionComponent<IntRing> {
    ExpressionComponent::new_int_element(value)
}

fn value_of(source: &str) -> i64 {
    let expression = parse_int_ring_expression(source).expect("ok");
    let element = expression.evaluate().expect("ok");
    element.to_string().parse().expect("a number")
}

#[test]
fn subtraction_is_left_associative() {
    let expression = parse_int_ring_expression("8 - 3 - 2").expect("ok");

    assert_eq!(
        ExpressionComponent::new_subtraction(
            ExpressionComponent::new_subtraction(leaf(8), leaf(3)),
            leaf(2)
        ),
        expression
    );
    assert_eq!(Ok(IntRingElement::new(3)), expression.evaluate());
    assert_eq!(3, value_of("(8 - 3) - 2"));
    assert_eq!(7, value_of("8 - (3 - 2)"));
}

#[test]
fn division_is_left_associative() {
    let expression = parse_int_ring_expression("16 / 4 / 2").expect("ok");

    assert_eq!(
        ExpressionComponent::new_division(
            ExpressionComponent::new_division(leaf(16), leaf(4)),
            leaf(2)
        ),
        expression
    );
    assert_eq!(2, value_of("16 / 4 / 2"));
    assert_eq!(2, value_of("(16 / 4) / 2"));
    assert_eq!(8, value_of("16 / (4 / 2)"));
}

#[test]
fn addition_and_multiplication_are_left_associative() {
    assert_eq!(
        ExpressionComponent::new_addition(
            ExpressionComponent::new_addition(leaf(1), leaf(2)),
            leaf(3)
        ),
        parse_int_ring_expression("1 + 2 + 3").expect("ok")
    );
    assert_eq!(value_of("(1 + 2) + 3"), value_of("1 + 2 + 3"));
    assert_eq!(
        ExpressionComponent::new_multiplication(
            ExpressionComponent::new_multiplication(leaf(2), leaf(3)),
            leaf(4)
        ),
        parse_int_ring_expression("2 * 3 * 4").expect("ok")
    );
    assert_eq!(value_of("(2 * 3) * 4"), value_of("2 * 3 * 4"));
}

#[test]
fn operators_of_one_precedence_mix_to_the_left() {
    assert_eq!(
        ExpressionComponent::new_addition(
            ExpressionComponent::new_subtraction(leaf(8), leaf(3)),
            leaf(2)
        ),
        parse_int_ring_expression("8 - 3 + 2").expect("ok")
    );
    assert_eq!(
        ExpressionComponent::new_multiplication(
            ExpressionComponent::new_division(leaf(8), leaf(4)),
            leaf(3)
        ),
        parse_int_ring_expression("8 / 4 * 3").expect("ok")
    );
}

#[test]
fn multiplication_before_addition_on_both_sides() {
    assert_eq!(
        ExpressionComponent::new_addition(
            ExpressionComponent::new_multiplication(leaf(2), leaf(5)),
            leaf(1)
        ),
        parse_int_ring_expression("2 * 5 + 1").expect("ok")
    );
    assert_eq!(
        ExpressionComponent::new_addition(
            ExpressionComponent::new_multiplication(leaf(2), leaf(3)),
            ExpressionComponent::new_multiplication(leaf(4), leaf(5))
        ),
        parse_int_ring_expression("2 * 3 + 4 * 5").expect("ok")
    );
    assert_eq!(
        ExpressionComponent::new_subtraction(
            ExpressionComponent::new_addition(
                leaf(1),
                ExpressionComponent::new_division(
                    ExpressionComponent::new_multiplication(leaf(2), leaf(6)),
                    leaf(3)
                )
            ),
            leaf(4)
        ),
        parse_int_ring_expression("1 + 2 * 6 / 3 - 4").expect("ok")
    );
    assert_eq!(1, value_of("1 + 2 * 6 / 3 - 4"));
}

#[test]
fn parentheses_wrap_the_tree_and_keep_the_value() {
    assert_eq!(
        ExpressionComponent::new_parenteses(ExpressionComponent::new_addition(leaf(2), leaf(3))),
        parse_int_ring_expression("(2 + 3)").expect("ok")
    );
    assert_eq!(value_of("2 + 3"), value_of("(2 + 3)"));
    assert_eq!(value_of("2 + 3 * 4"), value_of("2 + (3 * 4)"));
    assert_eq!(14, value_of("(2 + 3 * 4)"));
    assert_eq!(20, value_of("(2 + 3) * 4"));
}

#[test]
fn nested_parentheses() {
    assert_eq!(
        ExpressionComponent::new_parenteses(ExpressionComponent::new_parenteses(leaf(5))),
        parse_int_ring_expression("((5))").expect("ok")
    );
    assert_eq!(
        ExpressionComponent::new_parenteses(ExpressionComponent::new_addition(
            ExpressionComponent::new_parenteses(leaf(5)),
            leaf(1)
        )),
        parse_int_ring_expression("((5) + 1)").expect("ok")
    );
    assert_eq!(42, value_of("(((1 + 2)) * ((3 + 4)) * (2))"));
}

#[test]
fn minus_without_left_operand_negates_a_literal() {
    assert_eq!(leaf(-5), parse_int_ring_expression("-5").expect("ok"));
    assert_eq!(
        ExpressionComponent::new_multiplication(leaf(-5), leaf(3)),
        parse_int_ring_expression("-5 * 3").expect("ok")
    );
    assert_eq!(
        ExpressionComponent::new_subtraction(leaf(-2), leaf(3)),
        parse_int_ring_expression("-2 - 3").expect("ok")
    );
    assert_eq!(-5, value_of("-2 - 3"));
}

#[test]
fn minus_without_left_operand_wraps_other_terms() {
    let expression = parse_int_ring_expression("-(2 + 3)").expect("ok");

    assert_eq!(
        ExpressionComponent::new_unary_minus(ExpressionComponent::new_parenteses(
            ExpressionComponent::new_addition(leaf(2), leaf(3))
        )),
        expression
    );
    assert_eq!(Ok(IntRingElement::new(-5)), expression.evaluate());
}

#[test]
fn minus_without_left_operand_keeps_a_literal_without_opposite() {
    let tokens = vec![
        TokenWithPos { token: IntRingToken::MinusSign, position: 0 },
        TokenWithPos { token: IntRingToken::DecimalInteger(i64::MIN), position: 1 },
    ];
    let expression = parse_int_ring_expression_from_tokens(tokens).expect("ok");

    assert_eq!(ExpressionComponent::new_unary_minus(leaf(i64::MIN)), expression);
    assert_eq!(
        Err(EvaluateExpressionError { message: "Overflow".to_string() }),
        expression.evaluate()
    );
}

#[test]
fn minus_after_an_operator_is_no_operand() {
    assert_eq!(
        Err(ParseExpressionError {
            message: "Missing right hand side expression for operator".to_string(),
            position: 2,
            kind: Unspecified
        }),
        parse_int_ring_expression("2 * -3")
    );
}

#[test]
fn other_operators_need_a_left_operand() {
    for source in ["* 5", "/ 5", "(+ 5)", "(* 5)"] {
        let position = source.find(|c| c == '+' || c == '*' || c == '/').expect("operator");
        assert_eq!(
            Err(ParseExpressionError {
                message: "Missing left hand side expression for operator".to_string(),
                position,
                kind: Unspecified
            }),
            parse_int_ring_expression(source)
        );
    }
}

fn adjacent_at(position: usize) -> ParseExpressionError {
    ParseExpressionError {
        message: "Ring element cannot be followed by another ring element in expression"
            .to_string(),
        position,
        kind: Unspecified,
    }
}

#[test]
fn literal_after_parenthesis() {
    assert_eq!(Err(adjacent_at(2)), parse_int_ring_expression("(2) 3"));
    assert_eq!(Err(adjacent_at(6)), parse_int_ring_expression("(2 + 2) 3"));
    assert_eq!(Err(adjacent_at(1)), parse_int_ring_expression("() 3"));
}

#[test]
fn parenthesis_after_literal() {
    assert_eq!(Err(adjacent_at(0)), parse_int_ring_expression("3 (2)"));
}

#[test]
fn parenthesis_after_parenthesis() {
    assert_eq!(Err(adjacent_at(2)), parse_int_ring_expression("(2) (3)"));
}

#[test]
fn literal_behind_a_group_is_no_operand_inside_it() {
    assert_eq!(Err(adjacent_at(4)), parse_int_ring_expression("(2 +) 3"));
    assert_eq!(Err(adjacent_at(4)), parse_int_ring_expression("(2 *) 3 + 1"));
    assert_eq!(Err(adjacent_at(6)), parse_int_ring_expression("((2 +)) 3"));

    let tokens = vec![
        TokenWithPos { token: IntRingToken::LeftParenthesis, position: 0 },
        TokenWithPos { token: IntRingToken::DecimalInteger(2), position: 1 },
        TokenWithPos { token: IntRingToken::PlusSign, position: 3 },
        TokenWithPos { token: IntRingToken::RightParenthesis, position: 4 },
        TokenWithPos { token: IntRingToken::DecimalInteger(3), position: 6 },
    ];
    assert_eq!(Err(adjacent_at(4)), parse_int_ring_expression_from_tokens(tokens));
}

#[test]
fn operator_before_a_right_parenthesis_has_no_right_operand() {
    assert_eq!(
        Err(ParseExpressionError {
            message: "Missing right hand side expression for operator".to_string(),
            position: 3,
            kind: Unspecified
        }),
        parse_int_ring_expression("(2 +)")
    );
    assert_eq!(
        Err(ParseExpressionError {
            message: "Missing right hand side expression for operator".to_string(),
            position: 3,
            kind: Unspecified
        }),
        parse_int_ring_expression("(2 +) + 3")
    );
}

#[test]
fn empty_parentheses_alone() {
    assert_eq!(
        Err(ParseExpressionError {
            message: "No expression".to_string(),
            position: 1,
            kind: NoExpression
        }),
        parse_int_ring_expression("()")
    );
}

#[test]
fn empty_text() {
    assert_eq!(
        Err(ParseExpressionError {
            message: "No expression".to_string(),
            position: 0,
            kind: NoExpression
        }),
        parse_int_ring_expression("")
    );
}

#[test]
fn modulo_is_not_handled() {
    assert_eq!(
        Err(ParseExpressionError {
            message: "Unhandled token: mod".to_string(),
            position: 2,
            kind: Unspecified
        }),
        parse_int_ring_expression("5 mod 7")
    );
}

#[test]
fn tokens_with_any_positions() {
    let tokens = vec![
        TokenWithPos { token: IntRingToken::DecimalInteger(2), position: 10 },
        TokenWithPos { token: IntRingToken::PlusSign, position: 20 },
        TokenWithPos { token: IntRingToken::DecimalInteger(5), position: 30 },
        TokenWithPos { token: IntRingToken::MultiplicationSign, position: 40 },
        TokenWithPos { token: IntRingToken::DecimalInteger(-1), position: 50 },
    ];

    assert_eq!(
        Ok(ExpressionComponent::new_addition(
            leaf(2),
            ExpressionComponent::new_multiplication(leaf(5), leaf(-1))
        )),
        parse_int_ring_expression_from_tokens(tokens)
    );
}

#[test]
fn no_tokens() {
    assert_eq!(
        Err(ParseExpressionError {
            message: "No expression".to_string(),
            position: 0,
            kind: NoExpression
        }),
        parse_int_ring_expression_from_tokens(Vec::new())
    );
}

#[test]
fn failure_in_a_later_operand_is_reported() {
    let expression = parse_int_ring_expression("1 + 5 / 2").expect("ok");

    assert_eq!(
        Err(EvaluateExpressionError { message: "Result not in ring".to_string() }),
        expression.evaluate()
    );
}

#[test]
fn left_failure_comes_first() {
    let expression = parse_int_ring_expression("(1 / 0) + (5 / 2)").expect("ok");

    assert_eq!(
        Err(EvaluateExpressionError { message: "Overflow".to_string() }),
        expression.evaluate()
    );
}
