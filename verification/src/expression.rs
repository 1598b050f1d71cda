//! Expression trees over a ring and their evaluation.

use vstd::prelude::*;
use crate::expression::ring::{Ring, RingElement, RingError, RingOutcome, RingResult};

pub mod grammar;
pub mod parser;
pub mod ring;

verus! {

/// The reason an expression has no value.
#[derive(Debug, PartialEq, Eq, Clone, Hash)]
pub struct EvaluateExpressionError {
    pub message: String,
}

impl EvaluateExpressionError {
    /// The failure in words.
    pub open spec fn text(&self) -> Seq<char> {
        "Error evaluating expression: "@ + self.message@
    }

    /// Renders the failure as text.
    pub fn to_string(&self) -> (s: String)
        ensures
            s@ == self.text(),
    {
        let mut s = "Error evaluating expression: ".to_owned();
        s.append(self.message.as_str());
        s
    }
}

impl From<RingError> for EvaluateExpressionError {
    fn from(err: RingError) -> (res: Self) {
        EvaluateExpressionError { message: err.message }
    }
}

impl vstd::std_specs::convert::FromSpecImpl<RingError> for EvaluateExpressionError {
    open spec fn obeys_from_spec() -> bool {
        true
    }

    open spec fn from_spec(err: RingError) -> Self {
        EvaluateExpressionError { message: err.message }
    }
}

/// The result of an evaluation.
pub type EvaluateExpressionResult<T> = Result<T, EvaluateExpressionError>;

/// Whether the executable result `r` is the outcome `o`: the same element,
/// or a failure with the same message.
pub open spec fn evaluation_is<T>(r: EvaluateExpressionResult<T>, o: RingOutcome<T>) -> bool {
    match r {
        Ok(v) => o == Ok::<T, Seq<char>>(v),
        Err(e) => o == Err::<T, Seq<char>>(e.message@),
    }
}

/// A node of an expression tree. Each node owns its children.
#[derive(Debug, PartialEq, Eq, Hash)]
pub enum ExpressionComponent<R: Ring> {
    RingElement(R::RingElementType),
    Parentheses(Box<ExpressionComponent<R>>),
    UnaryMinus(Box<ExpressionComponent<R>>),
    Addition { left: Box<ExpressionComponent<R>>, right: Box<ExpressionComponent<R>> },
    Subtraction { left: Box<ExpressionComponent<R>>, right: Box<ExpressionComponent<R>> },
    Multiplication { left: Box<ExpressionComponent<R>>, right: Box<ExpressionComponent<R>> },
    Division { left: Box<ExpressionComponent<R>>, right: Box<ExpressionComponent<R>> },
}

impl<R: Ring> Clone for ExpressionComponent<R> {
    fn clone(&self) -> (res: Self)
        ensures
            res == *self,
        decreases self,
    {
        match self {
            ExpressionComponent::RingElement(element) => {
                let copy = element.clone();
                proof {
                    R::RingElementType::lemma_clone_is_equal(*element, copy);
                }
                ExpressionComponent::RingElement(copy)
            },
            ExpressionComponent::Parentheses(inner) => ExpressionComponent::Parentheses(
                Box::new((&**inner).clone()),
            ),
            ExpressionComponent::UnaryMinus(inner) => ExpressionComponent::UnaryMinus(
                Box::new((&**inner).clone()),
            ),
            ExpressionComponent::Addition { left, right } => ExpressionComponent::Addition {
                left: Box::new((&**left).clone()),
                right: Box::new((&**right).clone()),
            },
            ExpressionComponent::Subtraction { left, right } => ExpressionComponent::Subtraction {
                left: Box::new((&**left).clone()),
                right: Box::new((&**right).clone()),
            },
            ExpressionComponent::Multiplication { left, right } => {
                ExpressionComponent::Multiplication {
                    left: Box::new((&**left).clone()),
                    right: Box::new((&**right).clone()),
                }
            },
            ExpressionComponent::Division { left, right } => ExpressionComponent::Division {
                left: Box::new((&**left).clone()),
                right: Box::new((&**right).clone()),
            },
        }
    }
}

/// The four binary operators.
#[derive(Debug, PartialEq, Eq, Clone, Copy, Hash)]
pub enum Operator {
    Addition,
    Subtraction,
    Multiplication,
    Division,
}

impl Operator {
    /// The precedence class of the operator: 0 for the additive operators,
    /// 1 for the multiplicative ones.
    pub open spec fn precedence(self) -> int {
        match self {
            Operator::Addition | Operator::Subtraction => 0,
            Operator::Multiplication | Operator::Division => 1,
        }
    }

    /// The outcome of the operator in the ring `R`.
    pub open spec fn apply<R: Ring>(
        self,
        elm1: R::RingElementType,
        elm2: R::RingElementType,
    ) -> RingOutcome<R::RingElementType> {
        match self {
            Operator::Addition => R::add_spec(elm1, elm2),
            Operator::Subtraction => R::sub_spec(elm1, elm2),
            Operator::Multiplication => R::mul_spec(elm1, elm2),
            Operator::Division => R::div_spec(elm1, elm2),
        }
    }
}

/// What a binary node yields from the outcomes of its operands: the first
/// failure among them, left operand first, or else the outcome of the
/// operator on their values.
pub open spec fn combine<R: Ring>(
    operator: Operator,
    left: RingOutcome<R::RingElementType>,
    right: RingOutcome<R::RingElementType>,
) -> RingOutcome<R::RingElementType> {
    match left {
        Err(message) => Err(message),
        Ok(l) => match right {
            Err(message) => Err(message),
            Ok(r) => operator.apply::<R>(l, r),
        },
    }
}

impl<R: Ring> ExpressionComponent<R> {
    /// The node that applies `operator` to two subtrees.
    pub open spec fn binary(operator: Operator, left: Self, right: Self) -> Self {
        match operator {
            Operator::Addition => ExpressionComponent::Addition { left: Box::new(left), right: Box::new(right) },
            Operator::Subtraction => ExpressionComponent::Subtraction { left: Box::new(left), right: Box::new(right) },
            Operator::Multiplication => ExpressionComponent::Multiplication { left: Box::new(left), right: Box::new(right) },
            Operator::Division => ExpressionComponent::Division { left: Box::new(left), right: Box::new(right) },
        }
    }

    /// The operator of a binary node.
    pub open spec fn operator(self) -> Option<Operator> {
        match self {
            ExpressionComponent::Addition { .. } => Some(Operator::Addition),
            ExpressionComponent::Subtraction { .. } => Some(Operator::Subtraction),
            ExpressionComponent::Multiplication { .. } => Some(Operator::Multiplication),
            ExpressionComponent::Division { .. } => Some(Operator::Division),
            _ => None,
        }
    }

    /// The left operand of a binary node.
    pub open spec fn left(self) -> Self
        recommends
            self.operator() is Some,
    {
        match self {
            ExpressionComponent::Addition { left, .. } => *left,
            ExpressionComponent::Subtraction { left, .. } => *left,
            ExpressionComponent::Multiplication { left, .. } => *left,
            ExpressionComponent::Division { left, .. } => *left,
            _ => self,
        }
    }

    /// The right operand of a binary node.
    pub open spec fn right(self) -> Self
        recommends
            self.operator() is Some,
    {
        match self {
            ExpressionComponent::Addition { right, .. } => *right,
            ExpressionComponent::Subtraction { right, .. } => *right,
            ExpressionComponent::Multiplication { right, .. } => *right,
            ExpressionComponent::Division { right, .. } => *right,
            _ => self,
        }
    }

    /// The number of nodes on the longest path from this node to a leaf.
    pub open spec fn depth(self) -> nat
        decreases self,
    {
        match self {
            ExpressionComponent::RingElement(_) => 1,
            ExpressionComponent::Parentheses(inner) => 1 + inner.depth(),
            ExpressionComponent::UnaryMinus(inner) => 1 + inner.depth(),
            ExpressionComponent::Addition { left, right }
            | ExpressionComponent::Subtraction { left, right }
            | ExpressionComponent::Multiplication { left, right }
            | ExpressionComponent::Division { left, right } => {
                1 + if left.depth() >= right.depth() { left.depth() } else { right.depth() }
            },
        }
    }

    /// The value of the expression: every operator applied to the values of
    /// its operands, the left operand evaluated first, up to the first
    /// failure. Parentheses do not change the value; a unary minus subtracts
    /// its operand from zero.
    pub open spec fn value(self) -> RingOutcome<R::RingElementType>
        decreases self,
    {
        match self {
            ExpressionComponent::RingElement(element) => Ok(element),
            ExpressionComponent::Parentheses(inner) => inner.value(),
            ExpressionComponent::UnaryMinus(inner) => match inner.value() {
                Err(message) => Err(message),
                Ok(v) => R::sub_spec(R::zero_spec(), v),
            },
            ExpressionComponent::Addition { left, right } => combine::<R>(
                Operator::Addition,
                left.value(),
                right.value(),
            ),
            ExpressionComponent::Subtraction { left, right } => combine::<R>(
                Operator::Subtraction,
                left.value(),
                right.value(),
            ),
            ExpressionComponent::Multiplication { left, right } => combine::<R>(
                Operator::Multiplication,
                left.value(),
                right.value(),
            ),
            ExpressionComponent::Division { left, right } => combine::<R>(
                Operator::Division,
                left.value(),
                right.value(),
            ),
        }
    }

    /// Whether the node is a binary operator.
    pub open spec fn spec_is_operator(&self) -> bool {
        self.operator() is Some
    }

    /// The precedence class of the node: that of its operator, and the
    /// largest value for a node that is no operator.
    pub open spec fn spec_precedence(&self) -> int {
        match self.operator() {
            Some(operator) => operator.precedence(),
            None => i32::MAX as int,
        }
    }

    /// A leaf that holds `element`.
    pub fn new_ring_element(element: R::RingElementType) -> (expr: ExpressionComponent<R>)
        ensures
            expr == ExpressionComponent::<R>::RingElement(element),
    {
        ExpressionComponent::RingElement(element)
    }

    /// The sum of two expressions.
    pub fn new_addition(expr1: Self, expr2: Self) -> (expr: ExpressionComponent<R>)
        ensures
            expr == Self::binary(Operator::Addition, expr1, expr2),
    {
        ExpressionComponent::Addition { left: Box::new(expr1), right: Box::new(expr2) }
    }

    /// The difference of two expressions.
    pub fn new_subtraction(expr1: Self, expr2: Self) -> (expr: ExpressionComponent<R>)
        ensures
            expr == Self::binary(Operator::Subtraction, expr1, expr2),
    {
        ExpressionComponent::Subtraction { left: Box::new(expr1), right: Box::new(expr2) }
    }

    /// The product of two expressions.
    pub fn new_multiplication(expr1: Self, expr2: Self) -> (expr: ExpressionComponent<R>)
        ensures
            expr == Self::binary(Operator::Multiplication, expr1, expr2),
    {
        ExpressionComponent::Multiplication { left: Box::new(expr1), right: Box::new(expr2) }
    }

    /// The quotient of two expressions.
    pub fn new_division(expr1: Self, expr2: Self) -> (expr: ExpressionComponent<R>)
        ensures
            expr == Self::binary(Operator::Division, expr1, expr2),
    {
        ExpressionComponent::Division { left: Box::new(expr1), right: Box::new(expr2) }
    }

    /// An expression in parentheses.
    pub fn new_parenteses(expr: Self) -> (res: ExpressionComponent<R>)
        ensures
            res == ExpressionComponent::<R>::Parentheses(Box::new(expr)),
    {
        ExpressionComponent::Parentheses(Box::new(expr))
    }

    /// The opposite of an expression.
    pub fn new_unary_minus(expr: Self) -> (res: ExpressionComponent<R>)
        ensures
            res == ExpressionComponent::<R>::UnaryMinus(Box::new(expr)),
    {
        ExpressionComponent::UnaryMinus(Box::new(expr))
    }

    /// Whether the node is a binary operator.
    #[verifier::when_used_as_spec(spec_is_operator)]
    pub(crate) fn is_operator(&self) -> (res: bool)
        ensures
            res == self.spec_is_operator(),
    {
        match self {
            ExpressionComponent::RingElement(_) => false,
            ExpressionComponent::Addition { .. } => true,
            ExpressionComponent::Subtraction { .. } => true,
            ExpressionComponent::Multiplication { .. } => true,
            ExpressionComponent::Division { .. } => true,
            ExpressionComponent::Parentheses(_) => false,
            ExpressionComponent::UnaryMinus(_) => false,
        }
    }

    /// The precedence class of the node.
    pub(crate) fn precedence(&self) -> (res: i32)
        ensures
            res == self.spec_precedence(),
    {
        match self {
            ExpressionComponent::RingElement(_) => i32::MAX,
            ExpressionComponent::Parentheses(_) => i32::MAX,
            ExpressionComponent::UnaryMinus(_) => i32::MAX,
            ExpressionComponent::Addition { .. } => 0,
            ExpressionComponent::Subtraction { .. } => 0,
            ExpressionComponent::Multiplication { .. } => 1,
            ExpressionComponent::Division { .. } => 1,
        }
    }

    /// The left operand of a binary node, to be changed in place.
    pub(crate) fn left_mut(&mut self) -> (child: &mut ExpressionComponent<R>)
        requires
            old(self).spec_is_operator(),
        ensures
            *child == old(self).left(),
            *final(self) == Self::binary(old(self).operator()->0, *final(child), old(self).right()),
    {
        match self {
            ExpressionComponent::Addition { left, .. } => &mut **left,
            ExpressionComponent::Subtraction { left, .. } => &mut **left,
            ExpressionComponent::Multiplication { left, .. } => &mut **left,
            ExpressionComponent::Division { left, .. } => &mut **left,
            _ => vstd::pervasive::unreached(),
        }
    }

    /// The right operand of a binary node, to be changed in place.
    pub(crate) fn right_mut(&mut self) -> (child: &mut ExpressionComponent<R>)
        requires
            old(self).spec_is_operator(),
        ensures
            *child == old(self).right(),
            *final(self) == Self::binary(old(self).operator()->0, old(self).left(), *final(child)),
    {
        match self {
            ExpressionComponent::Addition { right, .. } => &mut **right,
            ExpressionComponent::Subtraction { right, .. } => &mut **right,
            ExpressionComponent::Multiplication { right, .. } => &mut **right,
            ExpressionComponent::Division { right, .. } => &mut **right,
            _ => vstd::pervasive::unreached(),
        }
    }

    /// Reduces the expression to a ring element, or to the first failure met.
    pub fn evaluate(&self) -> (res: EvaluateExpressionResult<R::RingElementType>)
        ensures
            evaluation_is(res, self.value()),
        decreases self.depth(), 1nat,
    {
        match self {
            ExpressionComponent::RingElement(r) => {
                let copy = r.clone();
                proof {
                    R::RingElementType::lemma_clone_is_equal(*r, copy);
                }
                Ok(copy)
            },
            ExpressionComponent::Parentheses(inner) => inner.evaluate(),
            ExpressionComponent::UnaryMinus(inner) => {
                match inner.evaluate() {
                    Ok(v) => Self::ring_outcome(R::sub(&R::zero(), &v)),
                    Err(err) => Err(err),
                }
            },
            ExpressionComponent::Addition { left, right } => {
                Self::evaluate_binary_operation(Operator::Addition, left, right)
            },
            ExpressionComponent::Subtraction { left, right } => {
                Self::evaluate_binary_operation(Operator::Subtraction, left, right)
            },
            ExpressionComponent::Multiplication { left, right } => {
                Self::evaluate_binary_operation(Operator::Multiplication, left, right)
            },
            ExpressionComponent::Division { left, right } => {
                Self::evaluate_binary_operation(Operator::Division, left, right)
            },
        }
    }

    /// The result of a ring operation as the result of an evaluation.
    fn ring_outcome(outcome: RingResult<R::RingElementType>) -> (res: EvaluateExpressionResult<R::RingElementType>)
        ensures
            match outcome {
                Ok(v) => res == Ok::<R::RingElementType, EvaluateExpressionError>(v),
                Err(e) => res matches Err(err) && err.message == e.message,
            },
    {
        match outcome {
            Ok(v) => Ok(v),
            Err(err) => Err(EvaluateExpressionError::from(err)),
        }
    }

    /// Evaluates the operands, the left one first, and applies the operator.
    fn evaluate_binary_operation(
        binary_operation: Operator,
        left: &Box<ExpressionComponent<R>>,
        right: &Box<ExpressionComponent<R>>,
    ) -> (res: EvaluateExpressionResult<R::RingElementType>)
        ensures
            evaluation_is(res, combine::<R>(binary_operation, left.value(), right.value())),
        decreases 1 + if left.depth() >= right.depth() { left.depth() } else { right.depth() }, 0nat,
    {
        let l = match left.evaluate() {
            Ok(l) => l,
            Err(err) => { return Err(err); },
        };
        let r = match right.evaluate() {
            Ok(r) => r,
            Err(err) => { return Err(err); },
        };
        let outcome = match binary_operation {
            Operator::Addition => R::add(&l, &r),
            Operator::Subtraction => R::sub(&l, &r),
            Operator::Multiplication => R::mul(&l, &r),
            Operator::Division => R::div(&l, &r),
        };
        Self::ring_outcome(outcome)
    }
}

} // verus!
