//! The ring of 64-bit signed integers with overflow-checked arithmetic.

use vstd::prelude::*;
use vstd::arithmetic::div_mod::{
    lemma_div_basics_4, lemma_div_basics_5, lemma_div_decreases, lemma_div_of0,
    lemma_fundamental_div_mod, lemma_fundamental_div_mod_converse_div,
    lemma_fundamental_div_mod_converse_mod, lemma_mod_pos_bound, lemma_small_mod,
};
use crate::decimal::{decimal_string, decimal_text};
use crate::expression::ExpressionComponent;
use crate::expression::ring::{Ring, RingElement, RingError, RingOutcome, RingResult};

verus! {

/// An element of the integer ring.
#[derive(Debug, PartialEq, Eq, Clone, Copy, Hash)]
pub struct IntRingElement {
    value: i64,
}

impl View for IntRingElement {
    type V = int;

    closed spec fn view(&self) -> int {
        self.value as int
    }
}

impl IntRingElement {
    /// The element that holds `value`.
    pub closed spec fn spec_new(value: i64) -> IntRingElement {
        IntRingElement { value }
    }

    /// The element that holds `value`.
    #[verifier::when_used_as_spec(spec_new)]
    pub fn new(value: i64) -> (element: IntRingElement)
        ensures
            element == IntRingElement::spec_new(value),
            element@ == value,
    {
        IntRingElement { value }
    }

    /// An element holds the integer it was made from.
    pub proof fn lemma_view_of_new(value: i64)
        ensures
            IntRingElement::spec_new(value)@ == value,
    {
    }

    /// Every element holds a 64-bit integer and is made from it.
    pub proof fn lemma_new_of_view(element: IntRingElement)
        ensures
            i64::MIN <= element@ <= i64::MAX,
            IntRingElement::spec_new(element@ as i64) == element,
    {
    }
}

impl RingElement for IntRingElement {
    open spec fn text(&self) -> Seq<char> {
        decimal_text(self@)
    }

    fn to_string(&self) -> (s: String) {
        decimal_string(self.value)
    }

    proof fn lemma_clone_is_equal(element: Self, copy: Self) {
    }
}

/// Whether `n` is representable as a 64-bit signed integer.
pub open spec fn fits_i64(n: int) -> bool {
    i64::MIN <= n <= i64::MAX
}

/// The element for an integer result, or the overflow failure when the
/// integer is not representable.
pub open spec fn int_outcome(n: int) -> RingOutcome<IntRingElement> {
    if fits_i64(n) {
        Ok(IntRingElement::spec_new(n as i64))
    } else {
        Err("Overflow"@)
    }
}

/// The quotient in the integer ring. It exists only where the division is
/// exact; a zero divisor and the one quotient that is not representable
/// count as overflow.
pub open spec fn int_quotient(dividend: int, divisor: int) -> RingOutcome<IntRingElement> {
    if divisor == 0 || (dividend == i64::MIN && divisor == -1) {
        Err("Overflow"@)
    } else if dividend % divisor != 0 {
        Err("Result not in ring"@)
    } else {
        Ok(IntRingElement::spec_new((dividend / divisor) as i64))
    }
}

/// Negating a dividend that a positive divisor divides exactly negates the
/// quotient and leaves no remainder.
proof fn lemma_negated_dividend(x: int, d: int)
    requires
        d > 0,
        x % d == 0,
    ensures
        (-x) % d == 0,
        (-x) / d == -(x / d),
{
    lemma_fundamental_div_mod(x, d);
    let q = x / d;
    assert(-x == (-q) * d + 0) by (nonlinear_arith)
        requires
            x == d * q,
    ;
    lemma_fundamental_div_mod_converse_mod(-x, d, -q, 0);
    lemma_fundamental_div_mod_converse_div(-x, d, -q, 0);
}

/// Negating a divisor keeps the remainder and negates the quotient.
proof fn lemma_negated_divisor(x: int, d: int)
    requires
        d < 0,
    ensures
        x % d == x % (-d),
        x / d == -(x / (-d)),
{
    let q = x / d;
    let r = x % d;
    lemma_fundamental_div_mod(x, d);
    assert(0 <= r < -d) by (nonlinear_arith)
        requires
            d < 0,
            r == x % d,
    ;
    assert(x == (-q) * (-d) + r) by (nonlinear_arith)
        requires
            x == d * q + r,
    ;
    lemma_fundamental_div_mod_converse_mod(x, -d, -q, r);
    lemma_fundamental_div_mod_converse_div(x, -d, -q, r);
}

/// Exact division does not depend on the signs of its operands: negating
/// an operand leaves the division exact or inexact as it was, and negates an
/// exact quotient.
proof fn lemma_exact_division_signs(x: int, d: int)
    requires
        d != 0,
    ensures
        (x % d == 0) == ((-x) % d == 0),
        (x % d == 0) == (x % (-d) == 0),
        (x % d == 0) == ((-x) % (-d) == 0),
        x % d == 0 ==> (-x) / d == -(x / d) && x / (-d) == -(x / d) && (-x) / (-d) == x / d,
{
    let e = if d > 0 { d } else { -d };
    if d > 0 {
        lemma_negated_divisor(x, -d);
        lemma_negated_divisor(-x, -d);
    } else {
        lemma_negated_divisor(x, d);
        lemma_negated_divisor(-x, d);
    }
    if x % e == 0 {
        lemma_negated_dividend(x, e);
    }
    if (-x) % e == 0 {
        lemma_negated_dividend(-x, e);
    }
}

/// The remainder whose sign follows the dividend, as the machine computes it.
spec fn truncated_remainder(x: int, d: int) -> int {
    let ax = if x < 0 { -x } else { x };
    let ad = if d < 0 { -d } else { d };
    if x < 0 { -(ax % ad) } else { ax % ad }
}

/// The quotient rounded towards zero, as the machine computes it.
spec fn truncated_quotient(x: int, d: int) -> int {
    let ax = if x < 0 { -x } else { x };
    let ad = if d < 0 { -d } else { d };
    if (x < 0) == (d < 0) { ax / ad } else { -(ax / ad) }
}

/// Machine division agrees with exact division: the truncated remainder is
/// zero exactly when the divisor divides the dividend, the quotient is then
/// the mathematical one, and both are representable.
proof fn lemma_truncated_division(x: int, d: int)
    requires
        fits_i64(x),
        fits_i64(d),
        d != 0,
        !(x == i64::MIN && d == -1),
    ensures
        fits_i64(truncated_remainder(x, d)),
        fits_i64(truncated_quotient(x, d)),
        (truncated_remainder(x, d) == 0) == (x % d == 0),
        x % d == 0 ==> truncated_quotient(x, d) == x / d,
{
    let ax = if x < 0 { -x } else { x };
    let ad = if d < 0 { -d } else { d };
    lemma_mod_pos_bound(ax, ad);
    lemma_div_basics_4(ax, ad);
    lemma_div_basics_5(ax, ad);
    if ax > 0 && ad > 1 {
        lemma_div_decreases(ax, ad);
    }
    lemma_exact_division_signs(x, d);
}

/// The integer ring.
#[derive(Debug, PartialEq, Eq, Clone, Hash)]
pub struct IntRing {
}

impl IntRing {
    /// The element for a checked machine result; overflow where there is none.
    fn ring_result(res: Option<i64>) -> (r: Result<IntRingElement, RingError>)
        ensures
            match res {
                Some(val) => r == Ok::<IntRingElement, RingError>(IntRingElement::spec_new(val)),
                None => r matches Err(e) && e.message@ == "Overflow"@,
            },
    {
        match res {
            Some(val) => Ok(IntRingElement::new(val)),
            None => Err(RingError { message: "Overflow".to_owned() }),
        }
    }
}

impl Ring for IntRing {
    type RingElementType = IntRingElement;

    open spec fn zero_spec() -> IntRingElement {
        IntRingElement::spec_new(0)
    }

    open spec fn add_spec(elm1: IntRingElement, elm2: IntRingElement) -> RingOutcome<IntRingElement> {
        int_outcome(elm1@ + elm2@)
    }

    open spec fn sub_spec(elm1: IntRingElement, elm2: IntRingElement) -> RingOutcome<IntRingElement> {
        int_outcome(elm1@ - elm2@)
    }

    open spec fn mul_spec(elm1: IntRingElement, elm2: IntRingElement) -> RingOutcome<IntRingElement> {
        int_outcome(elm1@ * elm2@)
    }

    open spec fn div_spec(elm1: IntRingElement, elm2: IntRingElement) -> RingOutcome<IntRingElement> {
        int_quotient(elm1@, elm2@)
    }

    fn zero() -> (res: IntRingElement) {
        IntRingElement::new(0)
    }

    fn add(elm1: &IntRingElement, elm2: &IntRingElement) -> (res: RingResult<IntRingElement>) {
        IntRing::ring_result(elm1.value.checked_add(elm2.value))
    }

    fn sub(elm1: &IntRingElement, elm2: &IntRingElement) -> (res: RingResult<IntRingElement>) {
        IntRing::ring_result(elm1.value.checked_sub(elm2.value))
    }

    fn mul(elm1: &IntRingElement, elm2: &IntRingElement) -> (res: RingResult<IntRingElement>) {
        IntRing::ring_result(elm1.value.checked_mul(elm2.value))
    }

    fn div(elm1: &IntRingElement, elm2: &IntRingElement) -> (res: RingResult<IntRingElement>) {
        proof {
            let x = elm1@;
            let d = elm2@;
            if d != 0 && !(x == i64::MIN && d == -1) {
                lemma_truncated_division(x, d);
                lemma_div_of0(if d < 0 { -d } else { d });
                lemma_small_mod(0, (if d < 0 { -d } else { d }) as nat);
                assert(elm1.value.checked_rem(elm2.value) == Some(truncated_remainder(x, d) as i64));
                assert(elm1.value.checked_div(elm2.value) == Some(truncated_quotient(x, d) as i64));
            }
        }
        let rem = elm1.value.checked_rem(elm2.value);
        if let Some(d) = rem {
            if d != 0 {
                return Err(RingError { message: "Result not in ring".to_owned() });
            }
        }
        IntRing::ring_result(elm1.value.checked_div(elm2.value))
    }
}

impl ExpressionComponent<IntRing> {
    /// The leaf that holds `value`.
    pub open spec fn int_element(value: i64) -> ExpressionComponent<IntRing> {
        ExpressionComponent::RingElement(IntRingElement::spec_new(value))
    }

    /// A leaf that holds `value`.
    pub fn new_int_element(value: i64) -> (expr: ExpressionComponent<IntRing>)
        ensures
            expr == Self::int_element(value),
    {
        ExpressionComponent::new_ring_element(IntRingElement::new(value))
    }
}

} // verus!
