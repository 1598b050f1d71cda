//! The ring abstraction: fallible addition, subtraction, multiplication and
//! division over an element type.

use vstd::prelude::*;

pub mod intring;

verus! {

/// The reason a ring operation has no result.
#[derive(Debug, PartialEq, Eq, Clone, Hash)]
pub struct RingError {
    pub message: String,
}

impl RingError {
    /// Renders the failure as text: its message.
    pub fn to_string(&self) -> (s: String)
        ensures
            s@ == self.message@,
    {
        self.message.clone()
    }
}

/// The result of a ring operation.
pub type RingResult<T> = Result<T, RingError>;

/// The outcome of a ring operation as a mathematical value: the element, or
/// the text of the failure message.
pub type RingOutcome<T> = Result<T, Seq<char>>;

/// Whether the executable result `r` is the outcome `o`.
pub open spec fn ring_result_is<T>(r: RingResult<T>, o: RingOutcome<T>) -> bool {
    match r {
        Ok(v) => o == Ok::<T, Seq<char>>(v),
        Err(e) => o == Err::<T, Seq<char>>(e.message@),
    }
}

/// An element of a ring.
pub trait RingElement: PartialEq + Eq + std::hash::Hash + Clone {
    /// The text that stands for this element.
    spec fn text(&self) -> Seq<char>;

    /// Renders the element as text.
    fn to_string(&self) -> (s: String)
        ensures
            s@ == self.text(),
    ;

    /// A clone of an element is that element.
    proof fn lemma_clone_is_equal(element: Self, copy: Self)
        requires
            cloned(element, copy),
        ensures
            copy == element,
    ;
}

/// A ring, or a class of rings, with division. Every operation may fail.
pub trait Ring {
    type RingElementType: RingElement;

    /// The neutral element of addition.
    spec fn zero_spec() -> Self::RingElementType;

    /// The sum of two elements, or why there is none.
    spec fn add_spec(elm1: Self::RingElementType, elm2: Self::RingElementType) -> RingOutcome<Self::RingElementType>;

    /// The difference of two elements, or why there is none.
    spec fn sub_spec(elm1: Self::RingElementType, elm2: Self::RingElementType) -> RingOutcome<Self::RingElementType>;

    /// The product of two elements, or why there is none.
    spec fn mul_spec(elm1: Self::RingElementType, elm2: Self::RingElementType) -> RingOutcome<Self::RingElementType>;

    /// The quotient of two elements, or why there is none.
    spec fn div_spec(elm1: Self::RingElementType, elm2: Self::RingElementType) -> RingOutcome<Self::RingElementType>;

    /// The neutral element of addition.
    fn zero() -> (res: Self::RingElementType)
        ensures
            res == Self::zero_spec(),
    ;

    /// Adds two elements.
    fn add(elm1: &Self::RingElementType, elm2: &Self::RingElementType) -> (res: RingResult<Self::RingElementType>)
        ensures
            ring_result_is(res, Self::add_spec(*elm1, *elm2)),
    ;

    /// Subtracts the second element from the first.
    fn sub(elm1: &Self::RingElementType, elm2: &Self::RingElementType) -> (res: RingResult<Self::RingElementType>)
        ensures
            ring_result_is(res, Self::sub_spec(*elm1, *elm2)),
    ;

    /// Multiplies two elements.
    fn mul(elm1: &Self::RingElementType, elm2: &Self::RingElementType) -> (res: RingResult<Self::RingElementType>)
        ensures
            ring_result_is(res, Self::mul_spec(*elm1, *elm2)),
    ;

    /// Divides the first element by the second.
    fn div(elm1: &Self::RingElementType, elm2: &Self::RingElementType) -> (res: RingResult<Self::RingElementType>)
        ensures
            ring_result_is(res, Self::div_spec(*elm1, *elm2)),
    ;
}

} // verus!
