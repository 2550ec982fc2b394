//! What even and odd elements have in common.

use vstd::prelude::*;
use crate::error::VersorError;
use crate::model::RatioModel;
use crate::ratio::Ratio;

verus! {

/// The reciprocal of the tolerance of a unit magnitude: two to the power 39.
pub const TOLERANCE: i64 = 0x80_0000_0000;

/// `m` is one within `1 / TOLERANCE`, which is less than `2e-12`.
pub open spec fn near_one(m: RatioModel) -> bool {
    (m.num - m.den) * TOLERANCE <= m.den && (m.den - m.num) * TOLERANCE <= m.den
}

/// `m` is one within `4 / TOLERANCE`, which is less than `8e-12`: what the
/// product of two unit elements is.
pub open spec fn near_one_product(m: RatioModel) -> bool {
    (m.num - m.den) * TOLERANCE <= 4 * m.den && (m.den - m.num) * TOLERANCE <= 4 * m.den
}

/// `m` is at most `n`.
pub open spec fn no_larger(m: RatioModel, n: RatioModel) -> bool {
    m.num * n.den <= n.num * m.den
}

/// A stored element: it says when it can be computed with and what its
/// squared magnitude is.
pub trait Element: Sized + Copy {
    /// Every component can be negated.
    spec fn wf(self) -> bool;

    /// The squared magnitude: the sum of the squares of the four components.
    spec fn magnitude(self) -> RatioModel;
}

/// An element that can be measured, reversed, inverted, scaled to unit
/// magnitude, and used to conjugate other elements.
///
/// The clauses here hold of every implementation; each implementation adds
/// the clauses that fix its results exactly.
pub trait Versor: Element {
    /// The even elements.
    type Even: Element;

    /// The odd elements.
    type Odd: Element;

    /// The squared magnitude.
    fn mag2(self) -> (r: Result<Ratio, VersorError>)
        requires
            self.wf(),
        ensures
            r is Ok <==> self.magnitude().bounded(),
            r matches Ok(q) ==> q@ == self.magnitude(),
            r matches Err(e) ==> e == VersorError::Overflow,
    ;

    /// The reverse, which has the magnitude of the element.
    fn rev(self) -> (r: Self)
        requires
            self.wf(),
        ensures
            r.wf(),
            r.magnitude() == self.magnitude(),
    ;

    /// The inverse, rounded. An element of magnitude zero has none.
    fn inv(self) -> (r: Result<Self, VersorError>)
        requires
            self.wf(),
        ensures
            r == Err::<Self, VersorError>(VersorError::DegenerateVersor) <==> self.magnitude().num
                == 0,
            r matches Ok(i) ==> i.wf(),
    ;

    /// The element scaled to magnitude one, within `1 / TOLERANCE`. Only an
    /// element of magnitude zero has no unit element: it has no direction
    /// to keep.
    fn normalize(self) -> (r: Result<Self, VersorError>)
        requires
            self.wf(),
        ensures
            r == Err::<Self, VersorError>(VersorError::DegenerateVersor) <==> self.magnitude().num
                == 0,
            self.magnitude().num != 0 ==> r is Ok,
            r matches Ok(u) ==> u.wf() && near_one(u.magnitude()),
    ;

    /// Conjugates an even element: `self * value * inv(self)`, rounded
    /// towards zero after each step, so that the magnitude of `value` is
    /// kept or falls slightly, and never rises.
    fn sandwich_even(self, value: Self::Even) -> (r: Result<Self::Even, VersorError>)
        requires
            self.wf(),
            value.wf(),
        ensures
            r == Err::<Self::Even, VersorError>(VersorError::DegenerateVersor)
                <==> self.magnitude().num == 0,
            r matches Ok(w) ==> w.wf() && no_larger(w.magnitude(), value.magnitude()),
    ;

    /// Conjugates an odd element: `self * value * inv(self)`, rounded
    /// towards zero after each step, so that the magnitude of `value` is
    /// kept or falls slightly, and never rises.
    fn sandwich_odd(self, value: Self::Odd) -> (r: Result<Self::Odd, VersorError>)
        requires
            self.wf(),
            value.wf(),
        ensures
            r == Err::<Self::Odd, VersorError>(VersorError::DegenerateVersor)
                <==> self.magnitude().num == 0,
            r matches Ok(w) ==> w.wf() && no_larger(w.magnitude(), value.magnitude()),
    ;
}

} // verus!
