//! What the parser is proved to do: it inverts the printing of every
//! expression tree that the grammar describes, it yields no tree but those
//! that its tokens spell, and it reads the decimal text of an integer back
//! as that integer.

use vstd::prelude::*;
use crate::decimal::{decimal_digits, decimal_text, is_digit, lemma_decimal_digits};
use crate::expression::parser::{
    IntRingExpression, IntRingTokens, ParseFailure, attach, lemma_scan_reads_to_the_left, negate,
    operator_of, or_term, parse_text, parse_tokens, scan,
};
use crate::expression::ring::intring::{IntRing, IntRingElement};
use crate::expression::{ExpressionComponent, Operator, combine};
use crate::report::joined;
use crate::token::intring::{IntRingToken, IntRingTokenParser, digits_end, int_ring_token_at};
use crate::token::{
    Token, TokenParser, TokenWithPos, is_whitespace, lemma_skip_whitespace, skip_whitespace,
    tokens_from,
};

verus! {

/// The token that stands for an operator.
pub open spec fn token_of(operator: Operator) -> IntRingToken {
    match operator {
        Operator::Addition => IntRingToken::PlusSign,
        Operator::Subtraction => IntRingToken::MinusSign,
        Operator::Multiplication => IntRingToken::MultiplicationSign,
        Operator::Division => IntRingToken::DivisionSign,
    }
}

/// The number of nodes of a tree.
pub open spec fn size(expression: IntRingExpression) -> nat
    decreases expression,
{
    match expression {
        ExpressionComponent::RingElement(_) => 1,
        ExpressionComponent::Parentheses(inner) => 1 + size(*inner),
        ExpressionComponent::UnaryMinus(inner) => 1 + size(*inner),
        ExpressionComponent::Addition { left, right }
        | ExpressionComponent::Subtraction { left, right }
        | ExpressionComponent::Multiplication { left, right }
        | ExpressionComponent::Division { left, right } => 1 + size(*left) + size(*right),
    }
}

/// Whether a tree is one that the grammar gives to some text: it holds no
/// unary minus, the right operand of every operator binds tighter than the
/// operator, and the left operand binds at least as tightly. Operators of
/// one precedence thus nest to the left, and a multiplication never has a
/// bare addition below it.
pub open spec fn grammatical(expression: IntRingExpression) -> bool
    decreases expression,
{
    match expression {
        ExpressionComponent::RingElement(_) => true,
        ExpressionComponent::Parentheses(inner) => grammatical(*inner),
        ExpressionComponent::UnaryMinus(_) => false,
        ExpressionComponent::Addition { left, right }
        | ExpressionComponent::Subtraction { left, right }
        | ExpressionComponent::Multiplication { left, right }
        | ExpressionComponent::Division { left, right } => {
            &&& grammatical(*left)
            &&& grammatical(*right)
            &&& left.spec_precedence() >= expression.spec_precedence()
            &&& right.spec_precedence() > expression.spec_precedence()
        },
    }
}

/// The tokens that a tree is written with, from left to right.
pub open spec fn tokens_of(expression: IntRingExpression) -> Seq<IntRingToken>
    decreases expression,
{
    match expression {
        ExpressionComponent::RingElement(element) => seq![IntRingToken::DecimalInteger(element@ as i64)],
        ExpressionComponent::Parentheses(inner) => seq![IntRingToken::LeftParenthesis] + tokens_of(*inner)
            + seq![IntRingToken::RightParenthesis],
        ExpressionComponent::UnaryMinus(inner) => seq![IntRingToken::MinusSign] + tokens_of(*inner),
        ExpressionComponent::Addition { left, right }
        | ExpressionComponent::Subtraction { left, right }
        | ExpressionComponent::Multiplication { left, right }
        | ExpressionComponent::Division { left, right } => tokens_of(*left) + seq![
            token_of(expression.operator()->0),
        ] + tokens_of(*right),
    }
}

/// Whether `tokens` holds the token kinds `kinds` from index `from` on,
/// whatever the positions.
pub open spec fn holds_at(tokens: IntRingTokens, from: int, kinds: Seq<IntRingToken>) -> bool {
    &&& 0 <= from
    &&& from + kinds.len() <= tokens.len()
    &&& forall|i: int| 0 <= i < kinds.len() ==> (#[trigger] tokens[from + i]).token == kinds[i]
}

/// Whether a scan that reaches index `from` ends there: the tokens start
/// there, or a left parenthesis that the scan is inside of stands before.
pub open spec fn ends_at(tokens: IntRingTokens, from: int, has_open_parenthesis: bool) -> bool {
    from == 0 || (0 < from <= tokens.len() && has_open_parenthesis && tokens[from - 1].token
        == IntRingToken::LeftParenthesis)
}

/// Whether a tree is a single term: a literal or a parenthesized tree.
pub open spec fn is_term(expression: IntRingExpression) -> bool {
    expression is RingElement || expression is Parentheses
}

/// What a binary node is made of.
proof fn lemma_binary(operator: Operator, left: IntRingExpression, right: IntRingExpression)
    ensures
        ({
            let node = IntRingExpression::binary(operator, left, right);
            &&& node.operator() == Some(operator)
            &&& node.left() == left
            &&& node.right() == right
            &&& !is_term(node)
            &&& node.spec_is_operator()
            &&& node.spec_precedence() == operator.precedence()
            &&& tokens_of(node) == tokens_of(left) + seq![token_of(operator)] + tokens_of(right)
            &&& size(node) == 1 + size(left) + size(right)
            &&& grammatical(node) == (grammatical(left) && grammatical(right) && left.spec_precedence()
                >= operator.precedence() && right.spec_precedence() > operator.precedence())
            &&& unsigned(node) == (unsigned(left) && unsigned(right))
            &&& node.value() == combine::<IntRing>(operator, left.value(), right.value())
        }),
{
    let node = IntRingExpression::binary(operator, left, right);
    match operator {
        Operator::Addition => {
            assert(node == (ExpressionComponent::<IntRing>::Addition {
                left: Box::new(left),
                right: Box::new(right),
            }));
        },
        Operator::Subtraction => {
            assert(node == (ExpressionComponent::<IntRing>::Subtraction {
                left: Box::new(left),
                right: Box::new(right),
            }));
        },
        Operator::Multiplication => {
            assert(node == (ExpressionComponent::<IntRing>::Multiplication {
                left: Box::new(left),
                right: Box::new(right),
            }));
        },
        Operator::Division => {
            assert(node == (ExpressionComponent::<IntRing>::Division {
                left: Box::new(left),
                right: Box::new(right),
            }));
        },
    }
}

/// A grammatical tree that is no term is a binary node.
proof fn lemma_operator_node(expression: IntRingExpression)
    requires
        grammatical(expression),
        !is_term(expression),
    ensures
        expression.operator() is Some,
        expression == IntRingExpression::binary(
            expression.operator()->0,
            expression.left(),
            expression.right(),
        ),
{
}

/// The rotation keeps what the grammar asks for: an operator attached to a
/// grammatical tree and a term gives a grammatical tree, written with the
/// tokens of the tree, the operator and the term in this order.
pub proof fn lemma_attach_is_grammatical(
    operator: Operator,
    lhs: IntRingExpression,
    rhs: IntRingExpression,
)
    requires
        grammatical(lhs),
        grammatical(rhs),
        is_term(rhs),
    ensures
        grammatical(attach(operator, lhs, rhs)),
        tokens_of(attach(operator, lhs, rhs)) == tokens_of(lhs) + seq![token_of(operator)] + tokens_of(
            rhs,
        ),
{
    if lhs.spec_is_operator() && lhs.spec_precedence() < operator.precedence() {
        lemma_operator_node(lhs);
        let lower = lhs.operator()->0;
        let inner = IntRingExpression::binary(operator, lhs.right(), rhs);
        lemma_binary(lower, lhs.left(), lhs.right());
        lemma_binary(operator, lhs.right(), rhs);
        lemma_binary(lower, lhs.left(), inner);
        assert(tokens_of(attach(operator, lhs, rhs)) =~= tokens_of(lhs) + seq![token_of(operator)]
            + tokens_of(rhs));
    } else {
        lemma_binary(operator, lhs, rhs);
        if !is_term(lhs) {
            lemma_operator_node(lhs);
            lemma_binary(lhs.operator()->0, lhs.left(), lhs.right());
        }
    }
}

/// Tokens that hold `before`, then `middle`, then `behind` hold each of the
/// three at its place.
proof fn lemma_holds_at_parts(
    tokens: IntRingTokens,
    from: int,
    before: Seq<IntRingToken>,
    middle: IntRingToken,
    behind: Seq<IntRingToken>,
)
    requires
        holds_at(tokens, from, before + seq![middle] + behind),
    ensures
        holds_at(tokens, from, before),
        from + before.len() < tokens.len(),
        tokens[from + before.len()].token == middle,
        holds_at(tokens, from + before.len() + 1, behind),
        holds_at(tokens, from, before + seq![middle]),
{
    let kinds = before + seq![middle] + behind;
    assert forall|i: int| 0 <= i < before.len() implies (#[trigger] tokens[from + i]).token == before[i] by {
        assert(kinds[i] == before[i]);
    }
    assert(tokens[from + before.len()].token == kinds[before.len() as int]);
    assert forall|i: int| 0 <= i < behind.len() implies (#[trigger] tokens[from + before.len() + 1
        + i]).token == behind[i] by {
        assert(tokens[from + (before.len() + 1 + i)].token == kinds[before.len() + 1 + i]);
    }
    assert forall|i: int| 0 <= i < (before + seq![middle]).len() implies (#[trigger] tokens[from
        + i]).token == (before + seq![middle])[i] by {
        assert(kinds[i] == (before + seq![middle])[i]);
    }
}

/// Tokens that hold `before` and then `behind` hold the two in a row.
proof fn lemma_holds_at_join(
    tokens: IntRingTokens,
    from: int,
    before: Seq<IntRingToken>,
    behind: Seq<IntRingToken>,
)
    requires
        holds_at(tokens, from, before),
        holds_at(tokens, from + before.len(), behind),
    ensures
        holds_at(tokens, from, before + behind),
{
    assert forall|i: int| 0 <= i < (before + behind).len() implies (#[trigger] tokens[from + i]).token == (
    before + behind)[i] by {
        if i >= before.len() {
            assert(tokens[from + before.len() + (i - before.len())].token == behind[i - before.len()]);
        }
    }
}

/// Reading a term from its last token passes the term on, as the pending
/// operand, to the scan of what stands before its first token.
proof fn lemma_scan_term(
    tokens: IntRingTokens,
    from: int,
    term: IntRingExpression,
    has_open_parenthesis: bool,
)
    requires
        grammatical(term),
        is_term(term),
        holds_at(tokens, from, tokens_of(term)),
    ensures
        scan(tokens, from + tokens_of(term).len(), None, has_open_parenthesis) == or_term(
            scan(tokens, from, Some(term), has_open_parenthesis),
            term,
        ),
    decreases size(term), 0nat,
{
    let kinds = tokens_of(term);
    match term {
        ExpressionComponent::RingElement(element) => {
            IntRingElement::lemma_new_of_view(element);
            assert(tokens[from + 0].token == kinds[0]);
        },
        ExpressionComponent::Parentheses(inner) => {
            let inside = tokens_of(*inner);
            lemma_holds_at_parts(
                tokens,
                from,
                seq![IntRingToken::LeftParenthesis] + inside,
                IntRingToken::RightParenthesis,
                Seq::empty(),
            );
            lemma_holds_at_parts(tokens, from, Seq::empty(), IntRingToken::LeftParenthesis, inside);
            lemma_scan_grammatical(tokens, from + 1, *inner, true);
        },
        _ => {},
    }
}

/// The step of the scan at an operator whose right operand is pending and
/// whose left operand is a grammatical tree that nothing precedes.
proof fn lemma_scan_operator(
    tokens: IntRingTokens,
    from: int,
    left: IntRingExpression,
    operator: Operator,
    term: IntRingExpression,
    has_open_parenthesis: bool,
)
    requires
        holds_at(tokens, from, tokens_of(left) + seq![token_of(operator)]),
        scan(tokens, from + tokens_of(left).len(), None, has_open_parenthesis) == Ok::<
            (Option<IntRingExpression>, int),
            ParseFailure,
        >((Some(left), from)),
    ensures
        scan(tokens, from + tokens_of(left).len() + 1, Some(term), has_open_parenthesis) == Ok::<
            (Option<IntRingExpression>, int),
            ParseFailure,
        >((Some(attach(operator, left, term)), from)),
{
    lemma_holds_at_parts(tokens, from, tokens_of(left), token_of(operator), Seq::empty());
}

/// The scan of the tokens of a grammatical tree, with nothing pending and
/// nothing that belongs to the expression before them, yields that tree and
/// stops before its first token.
proof fn lemma_scan_grammatical(
    tokens: IntRingTokens,
    from: int,
    expression: IntRingExpression,
    has_open_parenthesis: bool,
)
    requires
        grammatical(expression),
        holds_at(tokens, from, tokens_of(expression)),
        ends_at(tokens, from, has_open_parenthesis),
    ensures
        scan(tokens, from + tokens_of(expression).len(), None, has_open_parenthesis) == Ok::<
            (Option<IntRingExpression>, int),
            ParseFailure,
        >((Some(expression), from)),
    decreases size(expression), 1nat,
{
    if is_term(expression) {
        lemma_scan_term(tokens, from, expression, has_open_parenthesis);
    } else {
        lemma_operator_node(expression);
        let operator = expression.operator()->0;
        let left = expression.left();
        let right = expression.right();
        let at = from + tokens_of(left).len();
        lemma_binary(operator, left, right);
        lemma_holds_at_parts(tokens, from, tokens_of(left), token_of(operator), tokens_of(right));
        if is_term(right) {
            lemma_scan_term(tokens, at + 1, right, has_open_parenthesis);
            lemma_scan_grammatical(tokens, from, left, has_open_parenthesis);
            lemma_scan_operator(tokens, from, left, operator, right, has_open_parenthesis);
        } else {
            lemma_operator_node(right);
            let inner_operator = right.operator()->0;
            let middle = right.left();
            let last = right.right();
            let lower = IntRingExpression::binary(operator, left, middle);
            lemma_binary(inner_operator, middle, last);
            lemma_binary(operator, left, middle);
            lemma_holds_at_parts(
                tokens,
                at + 1,
                tokens_of(middle),
                token_of(inner_operator),
                tokens_of(last),
            );
            lemma_holds_at_join(
                tokens,
                from,
                tokens_of(left) + seq![token_of(operator)],
                tokens_of(middle),
            );
            lemma_holds_at_join(tokens, from, tokens_of(lower), seq![token_of(inner_operator)]);
            lemma_scan_term(tokens, at + 1 + tokens_of(middle).len() + 1, last, has_open_parenthesis);
            lemma_scan_grammatical(tokens, from, lower, has_open_parenthesis);
            lemma_scan_operator(tokens, from, lower, inner_operator, last, has_open_parenthesis);
            lemma_binary(operator, left, right);
        }
    }
}

/// Whether `tokens` spell `expression`: their kinds, in order and whatever
/// the positions, are the tokens that the tree is written with.
pub open spec fn spells(tokens: IntRingTokens, expression: IntRingExpression) -> bool {
    &&& tokens.len() == tokens_of(expression).len()
    &&& forall|i: int| 0 <= i < tokens.len() ==> (#[trigger] tokens[i]).token == tokens_of(expression)[i]
}

/// Whether every minus sign among the tokens has a left operand: a number
/// or a right parenthesis stands directly before it.
pub open spec fn minus_has_left_operand(tokens: IntRingTokens) -> bool {
    forall|i: int|
        0 <= i < tokens.len() && (#[trigger] tokens[i]).token == IntRingToken::MinusSign ==> i > 0 && (
        tokens[i - 1].token is DecimalInteger || tokens[i - 1].token == IntRingToken::RightParenthesis)
}

/// Parsing inverts printing: tokens that spell a grammatical tree, at
/// whatever positions, parse to that tree.
pub proof fn lemma_parse_inverts_printing(tokens: IntRingTokens, expression: IntRingExpression)
    requires
        grammatical(expression),
        spells(tokens, expression),
    ensures
        parse_tokens(tokens) == Ok::<IntRingExpression, ParseFailure>(expression),
{
    assert(holds_at(tokens, 0, tokens_of(expression))) by {
        assert forall|i: int| 0 <= i < tokens_of(expression).len() implies (#[trigger] tokens[0 + i]).token
            == tokens_of(expression)[i] by {
            assert(tokens[i].token == tokens_of(expression)[i]);
        }
    }
    lemma_scan_grammatical(tokens, 0, expression, false);
}

/// The number of tokens that a pending term is written with.
spec fn pending_len(pending: Option<IntRingExpression>) -> nat {
    match pending {
        Some(term) => tokens_of(term).len(),
        None => 0,
    }
}

/// What a scan that does not fail has read, where every minus sign has a
/// left operand and the pending term, if any, is a grammatical term that
/// the tokens hold from `remaining` on: it yields a grammatical tree that
/// the tokens hold from where the scan stopped up to the end of the pending
/// term; or, having read nothing, it yields nothing at a place where a scan
/// ends.
proof fn lemma_scan_yields_what_it_read(
    tokens: IntRingTokens,
    remaining: int,
    pending: Option<IntRingExpression>,
    has_open_parenthesis: bool,
)
    requires
        0 <= remaining <= tokens.len(),
        minus_has_left_operand(tokens),
        pending matches Some(term) ==> grammatical(term) && is_term(term) && holds_at(
            tokens,
            remaining,
            tokens_of(term),
        ),
    ensures
        scan(tokens, remaining, pending, has_open_parenthesis) matches Ok((yielded, rest)) ==> {
            &&& 0 <= rest <= remaining
            &&& yielded matches Some(expression) ==> {
                &&& grammatical(expression)
                &&& holds_at(tokens, rest, tokens_of(expression))
                &&& rest + tokens_of(expression).len() == remaining + pending_len(pending)
            }
            &&& yielded is None ==> rest == remaining && ends_at(tokens, remaining, has_open_parenthesis)
        },
    decreases remaining,
{
    if remaining > 0 {
        let at = remaining - 1;
        match tokens[at].token {
            IntRingToken::DecimalInteger(d) => {
                if pending is None {
                    let term = IntRingExpression::int_element(d);
                    IntRingElement::lemma_view_of_new(d);
                    assert(tokens_of(term) =~= seq![IntRingToken::DecimalInteger(d)]);
                    assert(holds_at(tokens, at, tokens_of(term))) by {
                        assert(tokens[at + 0].token == tokens_of(term)[0]);
                    }
                    lemma_scan_yields_what_it_read(tokens, at, Some(term), has_open_parenthesis);
                }
            },
            IntRingToken::PlusSign
            | IntRingToken::MinusSign
            | IntRingToken::MultiplicationSign
            | IntRingToken::DivisionSign => {
                if let Some(rhs) = pending {
                    let operator = operator_of(tokens[at].token)->0;
                    lemma_scan_yields_what_it_read(tokens, at, None, has_open_parenthesis);
                    match scan(tokens, at, None, has_open_parenthesis) {
                        Ok((Some(lhs), rest)) => {
                            lemma_attach_is_grammatical(operator, lhs, rhs);
                            assert(token_of(operator) == tokens[at].token);
                            assert(holds_at(tokens, at, seq![token_of(operator)])) by {
                                assert(tokens[at + 0].token == seq![token_of(operator)][0]);
                            }
                            lemma_holds_at_join(tokens, rest, tokens_of(lhs), seq![token_of(operator)]);
                            lemma_holds_at_join(
                                tokens,
                                rest,
                                tokens_of(lhs) + seq![token_of(operator)],
                                tokens_of(rhs),
                            );
                        },
                        _ => {},
                    }
                }
            },
            IntRingToken::RightParenthesis => {
                if pending is None {
                    lemma_scan_yields_what_it_read(tokens, at, None, true);
                    match scan(tokens, at, None, true) {
                        Ok((Some(inner), rest)) => {
                            if 0 < rest < remaining && tokens[rest - 1].token
                                == IntRingToken::LeftParenthesis {
                                let term: IntRingExpression = ExpressionComponent::Parentheses(
                                    Box::new(inner),
                                );
                                let open = seq![IntRingToken::LeftParenthesis];
                                let close = seq![IntRingToken::RightParenthesis];
                                assert(tokens_of(term) == open + tokens_of(inner) + close);
                                assert(holds_at(tokens, rest - 1, open)) by {
                                    assert(tokens[rest - 1 + 0].token == open[0]);
                                }
                                assert(holds_at(tokens, at, close)) by {
                                    assert(tokens[at + 0].token == close[0]);
                                }
                                lemma_holds_at_join(tokens, rest - 1, open, tokens_of(inner));
                                lemma_holds_at_join(tokens, rest - 1, open + tokens_of(inner), close);
                                lemma_scan_yields_what_it_read(
                                    tokens,
                                    rest - 1,
                                    Some(term),
                                    has_open_parenthesis,
                                );
                            }
                        },
                        _ => {},
                    }
                }
            },
            _ => {},
        }
    }
}

/// Parsing yields only what was written: where every minus sign has a left
/// operand, the tree that tokens parse to is grammatical and the tokens
/// spell it, none of them dropped, doubled or moved.
pub proof fn lemma_parsed_tree_spells_tokens(tokens: IntRingTokens, expression: IntRingExpression)
    requires
        minus_has_left_operand(tokens),
        parse_tokens(tokens) == Ok::<IntRingExpression, ParseFailure>(expression),
    ensures
        grammatical(expression),
        spells(tokens, expression),
{
    let all = tokens.len() as int;
    lemma_scan_yields_what_it_read(tokens, all, None, false);
    lemma_scan_reads_to_the_left(tokens, all, None, false);
    assert forall|i: int| 0 <= i < tokens.len() implies (#[trigger] tokens[i]).token == tokens_of(
        expression,
    )[i] by {
        assert(tokens[0 + i].token == tokens_of(expression)[i]);
    }
}

/// Parsing succeeds on the sentences of the grammar and on nothing else:
/// tokens in which every minus sign has a left operand parse exactly when
/// they spell a grammatical tree.
pub proof fn lemma_parse_succeeds_on_sentences_only(tokens: IntRingTokens)
    requires
        minus_has_left_operand(tokens),
    ensures
        parse_tokens(tokens) is Ok <==> exists|expression: IntRingExpression|
            grammatical(expression) && #[trigger] spells(tokens, expression),
{
    if parse_tokens(tokens) is Ok {
        let expression = parse_tokens(tokens)->Ok_0;
        lemma_parsed_tree_spells_tokens(tokens, expression);
        assert(grammatical(expression) && spells(tokens, expression));
    }
    if exists|expression: IntRingExpression| grammatical(expression) && #[trigger] spells(tokens, expression) {
        let expression = choose|expression: IntRingExpression|
            grammatical(expression) && #[trigger] spells(tokens, expression);
        lemma_parse_inverts_printing(tokens, expression);
    }
}

/// The tree of `a op b op c` where the operators nest to the left.
pub open spec fn left_nested(operator: Operator, a: i64, b: i64, c: i64) -> IntRingExpression {
    IntRingExpression::binary(
        operator,
        IntRingExpression::binary(
            operator,
            IntRingExpression::int_element(a),
            IntRingExpression::int_element(b),
        ),
        IntRingExpression::int_element(c),
    )
}

/// The tree of `(a op b) op c`.
pub open spec fn left_grouped(operator: Operator, a: i64, b: i64, c: i64) -> IntRingExpression {
    IntRingExpression::binary(
        operator,
        ExpressionComponent::Parentheses(
            Box::new(
                IntRingExpression::binary(
                    operator,
                    IntRingExpression::int_element(a),
                    IntRingExpression::int_element(b),
                ),
            ),
        ),
        IntRingExpression::int_element(c),
    )
}

/// The two trees of `a op b op c` and `(a op b) op c`: both are
/// grammatical, they are written with these tokens, the right operand of
/// the first is `c`, and they have the same value.
proof fn lemma_left_nested(operator: Operator, a: i64, b: i64, c: i64)
    ensures
        grammatical(left_nested(operator, a, b, c)),
        grammatical(left_grouped(operator, a, b, c)),
        tokens_of(left_nested(operator, a, b, c)) == seq![
            IntRingToken::DecimalInteger(a),
            token_of(operator),
            IntRingToken::DecimalInteger(b),
            token_of(operator),
            IntRingToken::DecimalInteger(c),
        ],
        tokens_of(left_grouped(operator, a, b, c)) == seq![
            IntRingToken::LeftParenthesis,
            IntRingToken::DecimalInteger(a),
            token_of(operator),
            IntRingToken::DecimalInteger(b),
            IntRingToken::RightParenthesis,
            token_of(operator),
            IntRingToken::DecimalInteger(c),
        ],
        left_nested(operator, a, b, c).right() == IntRingExpression::int_element(c),
        left_nested(operator, a, b, c).value() == left_grouped(operator, a, b, c).value(),
        a >= 0 && b >= 0 && c >= 0 ==> unsigned(left_nested(operator, a, b, c)) && unsigned(
            left_grouped(operator, a, b, c),
        ),
{
    let first = IntRingExpression::int_element(a);
    let second = IntRingExpression::int_element(b);
    let third = IntRingExpression::int_element(c);
    let inner = IntRingExpression::binary(operator, first, second);
    let group: IntRingExpression = ExpressionComponent::Parentheses(Box::new(inner));
    let plain = IntRingExpression::binary(operator, inner, third);
    let grouped = IntRingExpression::binary(operator, group, third);
    IntRingElement::lemma_view_of_new(a);
    IntRingElement::lemma_view_of_new(b);
    IntRingElement::lemma_view_of_new(c);
    lemma_binary(operator, first, second);
    lemma_binary(operator, inner, third);
    lemma_binary(operator, group, third);
    assert(tokens_of(first) =~= seq![IntRingToken::DecimalInteger(a)]);
    assert(tokens_of(second) =~= seq![IntRingToken::DecimalInteger(b)]);
    assert(tokens_of(third) =~= seq![IntRingToken::DecimalInteger(c)]);
    assert(tokens_of(inner) =~= seq![
        IntRingToken::DecimalInteger(a),
        token_of(operator),
        IntRingToken::DecimalInteger(b),
    ]);
    assert(tokens_of(group) =~= seq![
        IntRingToken::LeftParenthesis,
        IntRingToken::DecimalInteger(a),
        token_of(operator),
        IntRingToken::DecimalInteger(b),
        IntRingToken::RightParenthesis,
    ]);
    assert(tokens_of(plain) =~= seq![
        IntRingToken::DecimalInteger(a),
        token_of(operator),
        IntRingToken::DecimalInteger(b),
        token_of(operator),
        IntRingToken::DecimalInteger(c),
    ]);
    assert(tokens_of(grouped) =~= seq![
        IntRingToken::LeftParenthesis,
        IntRingToken::DecimalInteger(a),
        token_of(operator),
        IntRingToken::DecimalInteger(b),
        IntRingToken::RightParenthesis,
        token_of(operator),
        IntRingToken::DecimalInteger(c),
    ]);
    assert(grammatical(inner) && grammatical(group));
    assert(group.value() == inner.value());
    if a >= 0 && b >= 0 && c >= 0 {
        assert(unsigned(first) && unsigned(second) && unsigned(third));
        assert(unsigned(inner) && unsigned(group));
    }
}

/// Operators associate to the left: `a op b op c` parses to the tree of
/// `(a op b) op c` without the parentheses, whose right operand is `c`, and
/// both have the same value.
pub proof fn lemma_left_associative(
    tokens: IntRingTokens,
    wrapped: IntRingTokens,
    operator: Operator,
    a: i64,
    b: i64,
    c: i64,
)
    requires
        tokens.len() == 5,
        tokens[0].token == IntRingToken::DecimalInteger(a),
        tokens[1].token == token_of(operator),
        tokens[2].token == IntRingToken::DecimalInteger(b),
        tokens[3].token == token_of(operator),
        tokens[4].token == IntRingToken::DecimalInteger(c),
        wrapped.len() == 7,
        wrapped[0].token == IntRingToken::LeftParenthesis,
        wrapped[1].token == IntRingToken::DecimalInteger(a),
        wrapped[2].token == token_of(operator),
        wrapped[3].token == IntRingToken::DecimalInteger(b),
        wrapped[4].token == IntRingToken::RightParenthesis,
        wrapped[5].token == token_of(operator),
        wrapped[6].token == IntRingToken::DecimalInteger(c),
    ensures
        parse_tokens(tokens) == Ok::<IntRingExpression, ParseFailure>(left_nested(operator, a, b, c)),
        parse_tokens(wrapped) == Ok::<IntRingExpression, ParseFailure>(
            left_grouped(operator, a, b, c),
        ),
        parse_tokens(tokens)->Ok_0.right() == IntRingExpression::int_element(c),
        parse_tokens(tokens)->Ok_0.value() == parse_tokens(wrapped)->Ok_0.value(),
{
    lemma_left_nested(operator, a, b, c);
    lemma_parse_inverts_printing(tokens, left_nested(operator, a, b, c));
    lemma_parse_inverts_printing(wrapped, left_grouped(operator, a, b, c));
}

/// Parentheses around a whole expression wrap its tree in a parenthesized
/// node and leave its value as it is.
pub proof fn lemma_parentheses_keep_value(
    tokens: IntRingTokens,
    wrapped: IntRingTokens,
    expression: IntRingExpression,
)
    requires
        grammatical(expression),
        spells(tokens, expression),
        wrapped.len() == tokens.len() + 2,
        wrapped[0].token == IntRingToken::LeftParenthesis,
        wrapped[wrapped.len() - 1].token == IntRingToken::RightParenthesis,
        forall|i: int| 0 <= i < tokens.len() ==> wrapped[i + 1].token == tokens[i].token,
    ensures
        parse_tokens(tokens) == Ok::<IntRingExpression, ParseFailure>(expression),
        parse_tokens(wrapped) == Ok::<IntRingExpression, ParseFailure>(
            ExpressionComponent::Parentheses(Box::new(expression)),
        ),
        parse_tokens(wrapped)->Ok_0.value() == parse_tokens(tokens)->Ok_0.value(),
{
    let group: IntRingExpression = ExpressionComponent::Parentheses(Box::new(expression));
    lemma_parse_inverts_printing(tokens, expression);
    assert(grammatical(group));
    assert forall|i: int| 0 <= i < wrapped.len() implies wrapped[i].token == tokens_of(group)[i] by {
        if 0 < i < wrapped.len() - 1 {
            assert(wrapped[(i - 1) + 1].token == tokens[i - 1].token);
        }
    }
    lemma_parse_inverts_printing(wrapped, group);
    assert(group.value() == expression.value());
}

/// Whether no literal of the tree is negative.
pub open spec fn unsigned(expression: IntRingExpression) -> bool
    decreases expression,
{
    match expression {
        ExpressionComponent::RingElement(element) => element@ >= 0,
        ExpressionComponent::Parentheses(inner) => unsigned(*inner),
        ExpressionComponent::UnaryMinus(inner) => unsigned(*inner),
        ExpressionComponent::Addition { left, right }
        | ExpressionComponent::Subtraction { left, right }
        | ExpressionComponent::Multiplication { left, right }
        | ExpressionComponent::Division { left, right } => unsigned(*left) && unsigned(*right),
    }
}

/// Whether no number among the tokens is negative.
pub open spec fn unsigned_tokens(kinds: Seq<IntRingToken>) -> bool {
    forall|i: int|
        0 <= i < kinds.len() ==> (#[trigger] kinds[i] matches IntRingToken::DecimalInteger(d) ==> d >= 0)
}

/// The texts of the tokens `kinds` with one space between each two.
pub open spec fn spaced(kinds: Seq<IntRingToken>) -> Seq<char> {
    joined(Seq::new(kinds.len(), |i: int| kinds[i].text()), seq![' '])
}

/// The text of a tree: its tokens with one space between each two.
pub open spec fn printed(expression: IntRingExpression) -> Seq<char> {
    spaced(tokens_of(expression))
}

/// A tree without negative literals is written without negative numbers.
proof fn lemma_unsigned_tokens(expression: IntRingExpression)
    requires
        unsigned(expression),
    ensures
        unsigned_tokens(tokens_of(expression)),
    decreases expression,
{
    match expression {
        ExpressionComponent::RingElement(element) => {
            IntRingElement::lemma_new_of_view(element);
        },
        ExpressionComponent::Parentheses(inner) => {
            lemma_unsigned_tokens(*inner);
        },
        ExpressionComponent::UnaryMinus(inner) => {
            lemma_unsigned_tokens(*inner);
        },
        ExpressionComponent::Addition { left, right }
        | ExpressionComponent::Subtraction { left, right }
        | ExpressionComponent::Multiplication { left, right }
        | ExpressionComponent::Division { left, right } => {
            lemma_unsigned_tokens(*left);
            lemma_unsigned_tokens(*right);
        },
    }
}

/// A run of digits ends where the first character that is no digit stands,
/// or the text ends.
proof fn lemma_digits_run(chars: Seq<char>, position: int, end: int)
    requires
        0 <= position <= end <= chars.len(),
        forall|i: int| position <= i < end ==> is_digit(chars[i]),
        end < chars.len() ==> !is_digit(chars[end]),
    ensures
        digits_end(chars, position) == end,
    decreases end - position,
{
    if position < end {
        lemma_digits_run(chars, position + 1, end);
    }
}

/// The text of a token that is no negative number, followed by a space or
/// by the end of the text, is read as that token.
proof fn lemma_token_at_text(chars: Seq<char>, position: int, token: IntRingToken)
    requires
        0 <= position,
        position + token.text().len() <= chars.len(),
        chars.subrange(position, position + token.text().len()) == token.text(),
        position + token.text().len() < chars.len() ==> chars[position + token.text().len()] == ' ',
        token matches IntRingToken::DecimalInteger(d) ==> d >= 0,
    ensures
        token.text().len() >= 1,
        !is_whitespace(chars[position]),
        int_ring_token_at(chars, position) == Ok::<(IntRingToken, int), (Seq<char>, int)>(
            (token, position + token.text().len()),
        ),
{
    let text = token.text();
    let end = position + text.len();
    let found = chars.subrange(position, end);
    match token {
        IntRingToken::DecimalInteger(d) => {
            lemma_decimal_digits(d as nat);
            assert forall|i: int| position <= i < end implies is_digit(chars[i]) by {
                assert(chars[i] == found[i - position]);
            }
            lemma_digits_run(chars, position, end);
            assert(chars[position] == found[0]);
        },
        IntRingToken::Modulo => {
            assert(chars[position] == found[0]);
            assert(chars[position + 1] == found[1]);
            assert(chars[position + 2] == found[2]);
        },
        _ => {
            assert(chars[position] == found[0]);
        },
    }
}

/// Reading the tokens of a text goes on behind a white space as it would
/// have gone on from it.
proof fn lemma_tokens_from_whitespace(chars: Seq<char>, position: int)
    requires
        0 <= position < chars.len(),
        is_whitespace(chars[position]),
    ensures
        tokens_from(IntRingTokenParser {  }, chars, position) == tokens_from(
            IntRingTokenParser {  },
            chars,
            position + 1,
        ),
{
    lemma_skip_whitespace(chars, position + 1);
}

/// A text that ends with the texts of tokens, one space between each two,
/// holds from there on these tokens and no others.
proof fn lemma_tokens_of_spaced(chars: Seq<char>, position: int, kinds: Seq<IntRingToken>)
    requires
        0 <= position <= chars.len(),
        chars.subrange(position, chars.len() as int) == spaced(kinds),
        unsigned_tokens(kinds),
    ensures
        tokens_from(IntRingTokenParser {  }, chars, position).failure is None,
        tokens_from(IntRingTokenParser {  }, chars, position).tokens.len() == kinds.len(),
        forall|i: int|
            0 <= i < kinds.len() ==> (#[trigger] tokens_from(
                IntRingTokenParser {  },
                chars,
                position,
            ).tokens[i]).token == kinds[i],
    decreases kinds.len(),
{
    let generator = IntRingTokenParser {  };
    let texts = Seq::new(kinds.len(), |i: int| kinds[i].text());
    let text = chars.subrange(position, chars.len() as int);
    if kinds.len() == 0 {
        assert(skip_whitespace(chars, position) == position);
    } else {
        let token = kinds[0];
        let rest = kinds.drop_first();
        let rest_texts = Seq::new(rest.len(), |i: int| rest[i].text());
        let end = position + token.text().len();
        assert(texts[0] == token.text());
        assert(texts.drop_first() =~= rest_texts);
        if kinds.len() == 1 {
            assert(text == token.text());
            assert(chars.subrange(position, end) =~= token.text());
        } else {
            let whole = token.text() + seq![' '] + spaced(rest);
            assert(text == whole);
            assert(whole.len() == token.text().len() + 1 + spaced(rest).len());
            assert(text.len() == chars.len() - position);
            assert forall|i: int| 0 <= i < text.len() implies chars[position + i] == whole[i] by {
                assert(chars[position + i] == text[i]);
            }
            assert(chars.subrange(position, end) =~= token.text()) by {
                assert forall|i: int| 0 <= i < token.text().len() implies chars.subrange(position, end)[i]
                    == token.text()[i] by {
                    assert(chars[position + i] == whole[i]);
                }
            }
            assert(chars[end] == ' ') by {
                assert(chars[position + token.text().len()] == whole[token.text().len() as int]);
            }
            assert(chars.subrange(end + 1, chars.len() as int) =~= spaced(rest)) by {
                assert forall|i: int| 0 <= i < spaced(rest).len() implies chars.subrange(
                    end + 1,
                    chars.len() as int,
                )[i] == spaced(rest)[i] by {
                    assert(chars[position + (token.text().len() + 1 + i)] == whole[token.text().len() + 1
                        + i]);
                }
            }
        }
        lemma_token_at_text(chars, position, token);
        assert(skip_whitespace(chars, position) == position);
        assert(generator.token_at(chars, position) == int_ring_token_at(chars, position));
        let first = TokenWithPos { token, position: position as usize };
        let behind = tokens_from(generator, chars, end);
        assert(tokens_from(generator, chars, position).tokens == seq![first] + behind.tokens);
        assert(tokens_from(generator, chars, position).failure == behind.failure);
        if kinds.len() == 1 {
            assert(skip_whitespace(chars, end) == end);
            assert(behind.tokens.len() == 0 && behind.failure is None);
        } else {
            lemma_tokens_from_whitespace(chars, end);
            lemma_tokens_of_spaced(chars, end + 1, rest);
        }
        assert forall|i: int| 0 <= i < kinds.len() implies (#[trigger] tokens_from(
            generator,
            chars,
            position,
        ).tokens[i]).token == kinds[i] by {
            if i > 0 {
                assert(behind.tokens[i - 1].token == rest[i - 1]);
            }
        }
    }
}

/// Parsing inverts printing, text to tree: the text of a grammatical tree
/// without negative literals, its tokens with one space between each two,
/// parses to that tree.
pub proof fn lemma_parse_inverts_printed_text(expression: IntRingExpression)
    requires
        grammatical(expression),
        unsigned(expression),
    ensures
        parse_text(printed(expression)) == Ok::<IntRingExpression, ParseFailure>(expression),
{
    let text = printed(expression);
    lemma_unsigned_tokens(expression);
    assert(text.subrange(0, text.len() as int) =~= text);
    lemma_tokens_of_spaced(text, 0, tokens_of(expression));
    lemma_parse_inverts_printing(tokens_from(IntRingTokenParser {  }, text, 0).tokens, expression);
}

/// Operators associate to the left, in the text as well: for literals that
/// are not negative, the text `a op b op c` parses to the tree of
/// `( a op b ) op c` without the parentheses, whose right operand is `c`,
/// and both have the same value.
pub proof fn lemma_left_associative_text(operator: Operator, a: i64, b: i64, c: i64)
    requires
        a >= 0,
        b >= 0,
        c >= 0,
    ensures
        parse_text(printed(left_nested(operator, a, b, c))) == Ok::<IntRingExpression, ParseFailure>(
            left_nested(operator, a, b, c),
        ),
        parse_text(printed(left_grouped(operator, a, b, c))) == Ok::<IntRingExpression, ParseFailure>(
            left_grouped(operator, a, b, c),
        ),
        tokens_of(left_nested(operator, a, b, c)) == seq![
            IntRingToken::DecimalInteger(a),
            token_of(operator),
            IntRingToken::DecimalInteger(b),
            token_of(operator),
            IntRingToken::DecimalInteger(c),
        ],
        tokens_of(left_grouped(operator, a, b, c)) == seq![
            IntRingToken::LeftParenthesis,
            IntRingToken::DecimalInteger(a),
            token_of(operator),
            IntRingToken::DecimalInteger(b),
            IntRingToken::RightParenthesis,
            token_of(operator),
            IntRingToken::DecimalInteger(c),
        ],
        left_nested(operator, a, b, c).right() == IntRingExpression::int_element(c),
        left_nested(operator, a, b, c).value() == left_grouped(operator, a, b, c).value(),
{
    lemma_left_nested(operator, a, b, c);
    lemma_parse_inverts_printed_text(left_nested(operator, a, b, c));
    lemma_parse_inverts_printed_text(left_grouped(operator, a, b, c));
}

/// Parentheses around the text of a whole expression wrap its tree in a
/// parenthesized node and leave its value as it is.
pub proof fn lemma_parentheses_keep_value_text(expression: IntRingExpression)
    requires
        grammatical(expression),
        unsigned(expression),
    ensures
        parse_text(printed(expression)) == Ok::<IntRingExpression, ParseFailure>(expression),
        parse_text(printed(ExpressionComponent::Parentheses(Box::new(expression)))) == Ok::<
            IntRingExpression,
            ParseFailure,
        >(ExpressionComponent::Parentheses(Box::new(expression))),
        tokens_of(ExpressionComponent::Parentheses(Box::new(expression))) == seq![
            IntRingToken::LeftParenthesis,
        ] + tokens_of(expression) + seq![IntRingToken::RightParenthesis],
        (ExpressionComponent::<IntRing>::Parentheses(Box::new(expression))).value()
            == expression.value(),
{
    let group: IntRingExpression = ExpressionComponent::Parentheses(Box::new(expression));
    assert(grammatical(group) && unsigned(group));
    lemma_parse_inverts_printed_text(expression);
    lemma_parse_inverts_printed_text(group);
}

/// The decimal text of a 64-bit integer other than the least one parses to
/// the literal of that integer, which evaluates to it.
pub proof fn lemma_decimal_text_round_trip(n: i64)
    requires
        n > i64::MIN,
    ensures
        parse_text(decimal_text(n as int)) == Ok::<IntRingExpression, ParseFailure>(
            IntRingExpression::int_element(n),
        ),
        IntRingExpression::int_element(n).value() == Ok::<IntRingElement, Seq<char>>(
            IntRingElement::spec_new(n),
        ),
{
    let generator = IntRingTokenParser {  };
    let text = decimal_text(n as int);
    if n >= 0 {
        let literal = IntRingExpression::int_element(n);
        IntRingElement::lemma_view_of_new(n);
        assert(printed(literal) =~= text);
        lemma_parse_inverts_printed_text(literal);
    } else {
        let m = (-n) as i64;
        let digits = seq![IntRingToken::DecimalInteger(m)];
        assert(spaced(digits) =~= decimal_digits(m as nat));
        assert(text.subrange(1, text.len() as int) =~= spaced(digits));
        lemma_tokens_of_spaced(text, 1, digits);
        assert(skip_whitespace(text, 0) == 0);
        assert(generator.token_at(text, 0) == int_ring_token_at(text, 0));
        let all = tokens_from(generator, text, 0);
        let behind = tokens_from(generator, text, 1);
        assert(all.tokens =~= seq![TokenWithPos { token: IntRingToken::MinusSign, position: 0usize }]
            + behind.tokens);
        let tokens = all.tokens;
        assert(tokens[1] == behind.tokens[0]);
        let term = IntRingExpression::int_element(m);
        IntRingElement::lemma_view_of_new(m);
        IntRingElement::lemma_view_of_new(0);
        assert(negate(term) == IntRingExpression::int_element(n));
        assert(scan(tokens, 0, None, false) == Ok::<(Option<IntRingExpression>, int), ParseFailure>(
            (None, 0),
        ));
        assert(scan(tokens, 1, Some(term), false) == Ok::<(Option<IntRingExpression>, int), ParseFailure>(
            (Some(negate(term)), 0),
        ));
        assert(scan(tokens, 2, None, false) == or_term(scan(tokens, 1, Some(term), false), term));
    }
}

} // verus!
