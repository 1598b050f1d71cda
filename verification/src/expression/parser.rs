//! The parser of integer arithmetic. It reads the tokens once, from right to
//! left, and builds the tree as it goes: a term becomes the pending right
//! operand of the operator to its left, and an operator that binds tighter
//! than the root of its left operand is rotated into that operand's right
//! side.

use vstd::prelude::*;
use crate::decimal::{decimal_digits, natural_string};
use crate::expression::grammar::{
    grammatical, lemma_parse_succeeds_on_sentences_only, lemma_parsed_tree_spells_tokens,
    minus_has_left_operand, spells,
};
use crate::expression::ring::intring::IntRing;
use crate::expression::ring::Ring;
use crate::expression::{ExpressionComponent, Operator};
use crate::token::intring::{IntRingToken, IntRingTokenParser};
use crate::token::{Token, TokenError, TokenIterator, TokenWithPos, tokens_from};

verus! {

/// Why a text or a sequence of tokens is no expression, and where.
#[derive(Debug, PartialEq, Eq, Clone, Hash)]
pub struct ParseExpressionError {
    pub message: String,
    pub position: usize,
    pub kind: ParseExpressionErrorKind,
}

/// The class of a parse failure.
#[derive(Debug, PartialEq, Eq, Clone, Hash)]
pub enum ParseExpressionErrorKind {
    Unspecified,
    TokenParseError,
    NoExpression,
}

/// A parse failure as a mathematical value.
pub struct ParseFailure {
    pub message: Seq<char>,
    pub position: int,
    pub kind: ParseExpressionErrorKind,
}

impl View for ParseExpressionError {
    type V = ParseFailure;

    open spec fn view(&self) -> ParseFailure {
        ParseFailure { message: self.message@, position: self.position as int, kind: self.kind }
    }
}

impl ParseExpressionError {
    /// The failure in words: the position, then the message.
    pub open spec fn text(&self) -> Seq<char> {
        "Error parsing expression at position "@ + decimal_digits(self.position as nat) + ": "@
            + self.message@
    }

    /// Renders the failure as text.
    pub fn to_string(&self) -> (s: String)
        ensures
            s@ == self.text(),
    {
        let mut s = "Error parsing expression at position ".to_owned();
        s.append(natural_string(self.position as u64).as_str());
        s.append(": ");
        s.append(self.message.as_str());
        s
    }
}

impl From<TokenError> for ParseExpressionError {
    fn from(err: TokenError) -> (res: Self) {
        ParseExpressionError {
            message: err.message,
            position: err.position,
            kind: ParseExpressionErrorKind::TokenParseError,
        }
    }
}

impl vstd::std_specs::convert::FromSpecImpl<TokenError> for ParseExpressionError {
    open spec fn obeys_from_spec() -> bool {
        true
    }

    open spec fn from_spec(err: TokenError) -> Self {
        ParseExpressionError {
            message: err.message,
            position: err.position,
            kind: ParseExpressionErrorKind::TokenParseError,
        }
    }
}

/// The result of parsing.
pub type ParseExpressionResult<T> = Result<T, ParseExpressionError>;

/// An expression of integer arithmetic.
pub type IntRingExpression = ExpressionComponent<IntRing>;

/// The tokens of integer arithmetic with their positions.
pub type IntRingTokens = Seq<TokenWithPos<IntRingToken>>;

/// The state of a scan that has not failed: the expression that it yields,
/// if any, and the number of tokens that are left of it, unread.
pub type Scan = Result<(Option<IntRingExpression>, int), ParseFailure>;

/// A failure of the class `Unspecified`.
pub open spec fn failure(message: Seq<char>, position: int) -> ParseFailure {
    ParseFailure { message, position, kind: ParseExpressionErrorKind::Unspecified }
}

/// The failure for a term that stands directly before another term, at the
/// position of its last token.
pub open spec fn adjacent_terms(position: int) -> ParseFailure {
    failure("Ring element cannot be followed by another ring element in expression"@, position)
}

/// The failure for a place where an expression is expected and none stands.
pub open spec fn no_expression(position: int) -> ParseFailure {
    ParseFailure { message: "No expression"@, position, kind: ParseExpressionErrorKind::NoExpression }
}

/// The operator that a token stands for.
pub open spec fn operator_of(token: IntRingToken) -> Option<Operator> {
    match token {
        IntRingToken::PlusSign => Some(Operator::Addition),
        IntRingToken::MinusSign => Some(Operator::Subtraction),
        IntRingToken::MultiplicationSign => Some(Operator::Multiplication),
        IntRingToken::DivisionSign => Some(Operator::Division),
        _ => None,
    }
}

/// The tree for `lhs operator rhs`, where `rhs` is a single term. When the
/// root of `lhs` is an operator that binds less tightly than `operator`, the
/// new node takes the place of that root's right operand, which becomes its
/// own left operand; otherwise the new node is the root.
pub open spec fn attach(operator: Operator, lhs: IntRingExpression, rhs: IntRingExpression) -> IntRingExpression {
    if lhs.spec_is_operator() && lhs.spec_precedence() < operator.precedence() {
        IntRingExpression::binary(
            lhs.operator()->0,
            lhs.left(),
            IntRingExpression::binary(operator, lhs.right(), rhs),
        )
    } else {
        IntRingExpression::binary(operator, lhs, rhs)
    }
}

/// The operand of a minus sign that has no left operand: a literal whose
/// opposite exists in the ring becomes the literal of the opposite, any
/// other term is wrapped in a unary minus.
pub open spec fn negate(term: IntRingExpression) -> IntRingExpression {
    match term {
        ExpressionComponent::RingElement(element) => match IntRing::sub_spec(IntRing::zero_spec(), element) {
            Ok(opposite) => ExpressionComponent::RingElement(opposite),
            Err(_) => ExpressionComponent::UnaryMinus(Box::new(term)),
        },
        _ => ExpressionComponent::UnaryMinus(Box::new(term)),
    }
}

/// The outcome of a scan that went on to the left of `term`: what the scan
/// yields, or `term` itself where nothing stands to its left.
pub open spec fn or_term(scan: Scan, term: IntRingExpression) -> Scan {
    match scan {
        Ok((None, rest)) => Ok((Some(term), rest)),
        _ => scan,
    }
}

/// The scan of the first `remaining` tokens, from the last of them to the
/// left. `pending` is the term that stands directly to the right, still
/// without an operator; `has_open_parenthesis` says that the scan runs
/// inside a pair of parentheses, whose left one ends it.
///
/// - Where no token is left, the scan yields the pending term, if there is
///   one.
/// - A number must not have a term pending to its right. It becomes the
///   pending term, and is itself the outcome where nothing stands to its
///   left.
/// - An operator takes the pending term as its right operand, which must be
///   there, and what the scan yields to its left as its left operand. Where
///   that is nothing, a minus sign negates its operand, and any other
///   operator fails.
/// - A right parenthesis must not have a term pending to its right either.
///   What stands inside is scanned with nothing pending; that scan must
///   yield an expression and stop behind a left parenthesis. The expression
///   in its parentheses is then a term like a number.
/// - A left parenthesis ends the scan inside of parentheses without being
///   read, and leaves the pending term as it is; outside of them it fails.
/// - The word `mod` fails.
pub open spec fn scan(
    tokens: IntRingTokens,
    remaining: int,
    pending: Option<IntRingExpression>,
    has_open_parenthesis: bool,
) -> Scan
    decreases remaining,
{
    if remaining <= 0 || remaining > tokens.len() {
        Ok((pending, 0))
    } else {
        let position = tokens[remaining - 1].position as int;
        match tokens[remaining - 1].token {
            IntRingToken::DecimalInteger(d) => {
                if pending is Some {
                    Err(adjacent_terms(position))
                } else {
                    let term = IntRingExpression::int_element(d);
                    or_term(scan(tokens, remaining - 1, Some(term), has_open_parenthesis), term)
                }
            },
            IntRingToken::PlusSign
            | IntRingToken::MinusSign
            | IntRingToken::MultiplicationSign
            | IntRingToken::DivisionSign => {
                let operator = operator_of(tokens[remaining - 1].token)->0;
                match pending {
                    None => Err(failure("Missing right hand side expression for operator"@, position)),
                    Some(rhs) => match scan(tokens, remaining - 1, None, has_open_parenthesis) {
                        Err(err) => Err(err),
                        Ok((None, rest)) => {
                            if operator == Operator::Subtraction {
                                Ok((Some(negate(rhs)), rest))
                            } else {
                                Err(failure("Missing left hand side expression for operator"@, position))
                            }
                        },
                        Ok((Some(lhs), rest)) => Ok((Some(attach(operator, lhs, rhs)), rest)),
                    },
                }
            },
            IntRingToken::RightParenthesis => {
                if pending is Some {
                    Err(adjacent_terms(position))
                } else {
                    match scan(tokens, remaining - 1, None, true) {
                        Err(err) => Err(err),
                        Ok((None, rest)) => Err(no_expression(position)),
                        Ok((Some(inner), rest)) => {
                            if 0 < rest < remaining && tokens[rest - 1].token
                                == IntRingToken::LeftParenthesis {
                                let term = ExpressionComponent::Parentheses(Box::new(inner));
                                or_term(scan(tokens, rest - 1, Some(term), has_open_parenthesis), term)
                            } else {
                                Err(failure("Missing left parenthesis for right parenthesis"@, position))
                            }
                        },
                    }
                }
            },
            IntRingToken::LeftParenthesis => {
                if has_open_parenthesis {
                    Ok((None, remaining))
                } else {
                    Err(failure("Missing right parenthesis for left parenthesis"@, position))
                }
            },
            IntRingToken::Modulo => Err(
                failure("Unhandled token: "@ + tokens[remaining - 1].token.text(), position),
            ),
        }
    }
}

/// A scan reads from the right, never beyond the tokens it was given; what
/// it yields with nothing read is nothing, with the pending term untouched.
/// Outside of parentheses a scan that does not fail reads every token.
pub proof fn lemma_scan_reads_to_the_left(
    tokens: IntRingTokens,
    remaining: int,
    pending: Option<IntRingExpression>,
    has_open_parenthesis: bool,
)
    requires
        0 <= remaining <= tokens.len(),
    ensures
        scan(tokens, remaining, pending, has_open_parenthesis) matches Ok((expression, rest)) ==> {
            &&& 0 <= rest <= remaining
            &&& !has_open_parenthesis ==> rest == 0
            &&& expression is None ==> pending is None || rest == remaining
        },
    decreases remaining,
{
    if remaining > 0 {
        match tokens[remaining - 1].token {
            IntRingToken::DecimalInteger(d) => {
                let term = IntRingExpression::int_element(d);
                lemma_scan_reads_to_the_left(tokens, remaining - 1, Some(term), has_open_parenthesis);
            },
            IntRingToken::PlusSign
            | IntRingToken::MinusSign
            | IntRingToken::MultiplicationSign
            | IntRingToken::DivisionSign => {
                lemma_scan_reads_to_the_left(tokens, remaining - 1, None, has_open_parenthesis);
            },
            IntRingToken::RightParenthesis => {
                lemma_scan_reads_to_the_left(tokens, remaining - 1, None, true);
                match scan(tokens, remaining - 1, None, true) {
                    Ok((Some(inner), rest)) => {
                        if 0 < rest < remaining {
                            let term = ExpressionComponent::Parentheses(Box::new(inner));
                            lemma_scan_reads_to_the_left(tokens, rest - 1, Some(term), has_open_parenthesis);
                        }
                    },
                    _ => {},
                }
            },
            _ => {},
        }
    }
}

/// The expression that a sequence of tokens denotes, or why it denotes none.
pub open spec fn parse_tokens(tokens: IntRingTokens) -> Result<IntRingExpression, ParseFailure> {
    match scan(tokens, tokens.len() as int, None, false) {
        Err(err) => Err(err),
        Ok((Some(expression), _)) => Ok(expression),
        Ok((None, _)) => Err(no_expression(0)),
    }
}

/// The expression that a source text denotes, or why it denotes none. A
/// text that cannot be cut into tokens fails as the lexer does, before any
/// parsing.
pub open spec fn parse_text(text: Seq<char>) -> Result<IntRingExpression, ParseFailure> {
    let tokens = tokens_from(IntRingTokenParser {  }, text, 0);
    match tokens.failure {
        Some((message, position)) => Err(
            ParseFailure { message, position, kind: ParseExpressionErrorKind::TokenParseError },
        ),
        None => parse_tokens(tokens.tokens),
    }
}

/// Whether the result of parsing `tokens` is the one that the grammar asks
/// for: a grammatical tree that the tokens spell, or a failure where they
/// spell none.
pub open spec fn follows_grammar(tokens: IntRingTokens, res: ParseExpressionResult<IntRingExpression>) -> bool {
    match res {
        Ok(expression) => grammatical(expression) && spells(tokens, expression),
        Err(_) => forall|expression: IntRingExpression|
            grammatical(expression) ==> !#[trigger] spells(tokens, expression),
    }
}

/// Whether the executable result `r` is the outcome `o`.
pub open spec fn parse_result_is<T>(r: ParseExpressionResult<T>, o: Result<T, ParseFailure>) -> bool {
    match r {
        Ok(v) => o == Ok::<T, ParseFailure>(v),
        Err(e) => o == Err::<T, ParseFailure>(e@),
    }
}

/// A failure with the given message, position and class.
fn create_err<T>(message: String, position: usize, kind: ParseExpressionErrorKind) -> (res:
    ParseExpressionResult<T>)
    ensures
        res matches Err(err) && err@ == (ParseFailure { message: message@, position: position as int, kind }),
{
    Err(ParseExpressionError { message, position, kind })
}

/// The operand of a minus sign that has no left operand.
fn negate_term(term: IntRingExpression) -> (res: IntRingExpression)
    ensures
        res == negate(term),
{
    match term {
        ExpressionComponent::RingElement(element) => match IntRing::sub(&IntRing::zero(), &element) {
            Ok(opposite) => ExpressionComponent::RingElement(opposite),
            Err(_) => ExpressionComponent::new_unary_minus(ExpressionComponent::RingElement(element)),
        },
        other => ExpressionComponent::new_unary_minus(other),
    }
}

/// The node that applies `operator` to two expressions.
fn construct_expression(operator: Operator, expr1: IntRingExpression, expr2: IntRingExpression) -> (res:
    IntRingExpression)
    ensures
        res == IntRingExpression::binary(operator, expr1, expr2),
{
    match operator {
        Operator::Addition => ExpressionComponent::new_addition(expr1, expr2),
        Operator::Subtraction => ExpressionComponent::new_subtraction(expr1, expr2),
        Operator::Multiplication => ExpressionComponent::new_multiplication(expr1, expr2),
        Operator::Division => ExpressionComponent::new_division(expr1, expr2),
    }
}

/// Scans the first `remaining` tokens from the last of them to the left and
/// leaves in `remaining` the number of tokens that it did not read. The scan
/// may start inside an expression, with the term to its right in
/// `parsed_expression`, and inside a pair of parentheses, which
/// `has_open_parenthesis` tells.
fn parse_int_ring_expression_from_tokens_rec(
    tokens: &Vec<TokenWithPos<IntRingToken>>,
    remaining: &mut usize,
    parsed_expression: &mut Option<IntRingExpression>,
    has_open_parenthesis: bool,
) -> (res: ParseExpressionResult<Option<IntRingExpression>>)
    requires
        *old(remaining) <= tokens.len(),
    ensures
        *final(remaining) <= *old(remaining),
        match res {
            Ok(expression) => {
                &&& scan(tokens@, *old(remaining) as int, *old(parsed_expression), has_open_parenthesis)
                    == Ok::<(Option<IntRingExpression>, int), ParseFailure>(
                    (expression, *final(remaining) as int),
                )
                &&& *final(parsed_expression) == if expression is Some {
                    None
                } else {
                    *old(parsed_expression)
                }
                &&& !has_open_parenthesis ==> *final(remaining) == 0
            },
            Err(err) => scan(tokens@, *old(remaining) as int, *old(parsed_expression), has_open_parenthesis)
                == Err::<(Option<IntRingExpression>, int), ParseFailure>(err@),
        },
    decreases *old(remaining),
{
    if *remaining == 0 {
        return Ok(parsed_expression.take());
    }
    let index = *remaining - 1;
    let position = tokens[index].position;
    match &tokens[index].token {
        IntRingToken::DecimalInteger(d) => {
            *remaining = index;
            if parsed_expression.is_some() {
                return create_err(
                    "Ring element cannot be followed by another ring element in expression".to_owned(),
                    position,
                    ParseExpressionErrorKind::Unspecified,
                );
            }
            *parsed_expression = Some(ExpressionComponent::new_int_element(*d));
            let rest = match parse_int_ring_expression_from_tokens_rec(
                tokens,
                remaining,
                parsed_expression,
                has_open_parenthesis,
            ) {
                Ok(rest) => rest,
                Err(err) => {
                    return Err(err);
                },
            };
            if rest.is_some() {
                Ok(rest)
            } else {
                Ok(parsed_expression.take())
            }
        },
        IntRingToken::PlusSign
        | IntRingToken::MinusSign
        | IntRingToken::MultiplicationSign
        | IntRingToken::DivisionSign => {
            *remaining = index;
            let operator = match &tokens[index].token {
                IntRingToken::PlusSign => Operator::Addition,
                IntRingToken::MinusSign => Operator::Subtraction,
                IntRingToken::MultiplicationSign => Operator::Multiplication,
                _ => Operator::Division,
            };
            if let Some(rhs_expression) = parsed_expression.take() {
                let lhs_expression_option = match parse_int_ring_expression_from_tokens_rec(
                    tokens,
                    remaining,
                    parsed_expression,
                    has_open_parenthesis,
                ) {
                    Ok(lhs) => lhs,
                    Err(err) => {
                        return Err(err);
                    },
                };
                let mut lhs_expression = match lhs_expression_option {
                    Some(lhs) => lhs,
                    None => {
                        return match operator {
                            Operator::Subtraction => Ok(Some(negate_term(rhs_expression))),
                            _ => create_err(
                                "Missing left hand side expression for operator".to_owned(),
                                position,
                                ParseExpressionErrorKind::Unspecified,
                            ),
                        };
                    },
                };
                let mut operator_expression = construct_expression(
                    operator,
                    ExpressionComponent::new_int_element(0),
                    rhs_expression,
                );
                if lhs_expression.is_operator() && lhs_expression.precedence()
                    < operator_expression.precedence() {
                    std::mem::swap(operator_expression.left_mut(), lhs_expression.right_mut());
                    std::mem::swap(lhs_expression.right_mut(), &mut operator_expression);
                    Ok(Some(lhs_expression))
                } else {
                    std::mem::swap(operator_expression.left_mut(), &mut lhs_expression);
                    Ok(Some(operator_expression))
                }
            } else {
                create_err(
                    "Missing right hand side expression for operator".to_owned(),
                    position,
                    ParseExpressionErrorKind::Unspecified,
                )
            }
        },
        IntRingToken::RightParenthesis => {
            *remaining = index;
            if parsed_expression.is_some() {
                return create_err(
                    "Ring element cannot be followed by another ring element in expression".to_owned(),
                    position,
                    ParseExpressionErrorKind::Unspecified,
                );
            }
            let inner = match parse_int_ring_expression_from_tokens_rec(
                tokens,
                remaining,
                parsed_expression,
                true,
            ) {
                Ok(Some(inner)) => inner,
                Ok(None) => {
                    return create_err(
                        "No expression".to_owned(),
                        position,
                        ParseExpressionErrorKind::NoExpression,
                    );
                },
                Err(err) => {
                    return Err(err);
                },
            };
            let closes = *remaining > 0 && match &tokens[*remaining - 1].token {
                IntRingToken::LeftParenthesis => true,
                _ => false,
            };
            if closes {
                *remaining = *remaining - 1;
                *parsed_expression = Some(ExpressionComponent::new_parenteses(inner));
                let rest = match parse_int_ring_expression_from_tokens_rec(
                    tokens,
                    remaining,
                    parsed_expression,
                    has_open_parenthesis,
                ) {
                    Ok(rest) => rest,
                    Err(err) => {
                        return Err(err);
                    },
                };
                if rest.is_some() {
                    Ok(rest)
                } else {
                    Ok(parsed_expression.take())
                }
            } else {
                create_err(
                    "Missing left parenthesis for right parenthesis".to_owned(),
                    position,
                    ParseExpressionErrorKind::Unspecified,
                )
            }
        },
        IntRingToken::LeftParenthesis => {
            if has_open_parenthesis {
                Ok(None)
            } else {
                create_err(
                    "Missing right parenthesis for left parenthesis".to_owned(),
                    position,
                    ParseExpressionErrorKind::Unspecified,
                )
            }
        },
        token => {
            let text = token.to_string();
            create_err(
                "Unhandled token: ".to_owned().concat(text.as_str()),
                position,
                ParseExpressionErrorKind::Unspecified,
            )
        },
    }
}

/// Parses an expression out of a source text. A text that cannot be cut
/// into tokens fails as the lexer does. Where every minus sign among the
/// tokens has a left operand, the text parses exactly when its tokens are a
/// sentence of the grammar, to the tree that they spell.
pub fn parse_int_ring_expression(str: &str) -> (res: ParseExpressionResult<IntRingExpression>)
    ensures
        parse_result_is(res, parse_text(str@)),
        ({
            let lexed = tokens_from(IntRingTokenParser {  }, str@, 0);
            lexed.failure is None && minus_has_left_operand(lexed.tokens) ==> follows_grammar(
                lexed.tokens,
                res,
            )
        }),
{
    let tokens_result = TokenIterator::new(str, IntRingTokenParser::new()).collect();
    let tokens = match tokens_result {
        Ok(tokens) => tokens,
        Err(err) => {
            return Err(ParseExpressionError::from(err));
        },
    };
    parse_int_ring_expression_from_tokens(tokens)
}

/// Parses an expression out of `tokens`. Where every minus sign among them
/// has a left operand, they parse exactly when they are a sentence of the
/// grammar, to the tree that they spell.
pub fn parse_int_ring_expression_from_tokens(tokens: Vec<TokenWithPos<IntRingToken>>) -> (res:
    ParseExpressionResult<IntRingExpression>)
    ensures
        parse_result_is(res, parse_tokens(tokens@)),
        minus_has_left_operand(tokens@) ==> follows_grammar(tokens@, res),
{
    proof {
        if minus_has_left_operand(tokens@) {
            lemma_parse_succeeds_on_sentences_only(tokens@);
            if parse_tokens(tokens@) is Ok {
                lemma_parsed_tree_spells_tokens(tokens@, parse_tokens(tokens@)->Ok_0);
            }
        }
    }
    let mut parsed_expression: Option<IntRingExpression> = None;
    let mut remaining = tokens.len();
    let result = parse_int_ring_expression_from_tokens_rec(
        &tokens,
        &mut remaining,
        &mut parsed_expression,
        false,
    );
    match result {
        Ok(Some(expr)) => Ok(expr),
        Err(err) => Err(err),
        Ok(None) => create_err("No expression".to_owned(), 0, ParseExpressionErrorKind::NoExpression),
    }
}

} // verus!
