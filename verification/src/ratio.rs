//! Rational scalars.

use vstd::prelude::*;
use crate::model::RatioModel;

verus! {

/// A rational number held as a numerator over a positive denominator.
#[derive(Clone, Copy, Debug, PartialEq, Eq, Structural)]
pub struct Ratio {
    pub num: i128,
    pub den: i128,
}

impl View for Ratio {
    type V = RatioModel;

    open spec fn view(&self) -> RatioModel {
        RatioModel { num: self.num as int, den: self.den as int }
    }
}

impl Ratio {
    /// The denominator is positive and the numerator can be negated.
    pub open spec fn wf(self) -> bool {
        self@.bounded()
    }

    /// The ratio `num / den`, unless the denominator is not positive or the
    /// numerator is the one value that cannot be negated.
    pub fn new(num: i128, den: i128) -> (r: Option<Ratio>)
        ensures
            r is Some <==> (RatioModel { num: num as int, den: den as int }).bounded(),
            r matches Some(q) ==> q.num == num && q.den == den,
    {
        if den > 0 && num >= -0x7fff_ffff_ffff_ffff_ffff_ffff_ffff_ffff {
            Some(Ratio { num, den })
        } else {
            None
        }
    }
}

} // verus!
