//! Odd elements as even elements times the unit trivector.
//!
//! The unit trivector `e_xyz` commutes with every element and squares to
//! minus one. So each product that involves an odd element is a product of
//! even elements in disguise, and what is proved of the one carries over to
//! the others.

use vstd::prelude::*;
use crate::identities::{lemma_signs, lemma_signs_row};
use crate::model::{EvenModel, OddModel};

verus! {

/// The odd element `e * e_xyz`.
pub open spec fn dual_of_even(e: EvenModel) -> OddModel {
    OddModel { xyz: e.sca, x: -e.yz, y: -e.zx, z: -e.xy, den: e.den }
}

/// The even element `q` with `q * e_xyz == w`.
pub open spec fn dual_of_odd(w: OddModel) -> EvenModel {
    EvenModel { sca: w.xyz, yz: -w.x, zx: -w.y, xy: -w.z, den: w.den }
}

/// The even element with every numerator negated.
pub open spec fn negated(e: EvenModel) -> EvenModel {
    EvenModel { sca: -e.sca, yz: -e.yz, zx: -e.zx, xy: -e.xy, den: e.den }
}

/// An element and its dual have the same sum of squares.
pub proof fn lemma_dual_norm(e: EvenModel, w: OddModel)
    ensures
        dual_of_even(e).norm() == e.norm(),
        dual_of_odd(w).norm() == w.norm(),
        negated(e).norm() == e.norm(),
        dual_of_odd(dual_of_even(e)) == e,
        dual_of_even(dual_of_odd(w)) == w,
{
    lemma_signs(e.sca, e.sca);
    lemma_signs(e.yz, e.yz);
    lemma_signs(e.zx, e.zx);
    lemma_signs(e.xy, e.xy);
    lemma_signs(w.x, w.x);
    lemma_signs(w.y, w.y);
    lemma_signs(w.z, w.z);
}

/// An even element times an odd one, through the product of even elements:
/// `a * (q * e_xyz) == (a * q) * e_xyz`.
pub proof fn lemma_even_odd_through_dual(a: EvenModel, w: OddModel)
    ensures
        a.mul_odd(w) == dual_of_even(a.mul_even(dual_of_odd(w))),
{
    lemma_signs_row(w.x, a.sca, a.yz, a.zx, a.xy);
    lemma_signs_row(w.y, a.sca, a.yz, a.zx, a.xy);
    lemma_signs_row(w.z, a.sca, a.yz, a.zx, a.xy);
}

/// An odd element times an even one, through the product of even elements:
/// `(q * e_xyz) * b == (q * b) * e_xyz`.
pub proof fn lemma_odd_even_through_dual(w: OddModel, b: EvenModel)
    ensures
        w.mul_even(b) == dual_of_even(dual_of_odd(w).mul_even(b)),
{
    lemma_signs_row(w.x, b.sca, b.yz, b.zx, b.xy);
    lemma_signs_row(w.y, b.sca, b.yz, b.zx, b.xy);
    lemma_signs_row(w.z, b.sca, b.yz, b.zx, b.xy);
}

/// The product of two odd elements, through the product of even elements:
/// `(p * e_xyz) * (q * e_xyz) == -(p * q)`, as the unit trivector squares to
/// minus one.
pub proof fn lemma_odd_odd_through_dual(w: OddModel, v: OddModel)
    ensures
        w.mul_odd(v) == negated(dual_of_odd(w).mul_even(dual_of_odd(v))),
{
    lemma_signs_row(w.x, v.xyz, v.x, v.y, v.z);
    lemma_signs_row(w.y, v.xyz, v.x, v.y, v.z);
    lemma_signs_row(w.z, v.xyz, v.x, v.y, v.z);
    lemma_signs_row(v.x, w.xyz, w.x, w.y, w.z);
    lemma_signs_row(v.y, w.xyz, w.x, w.y, w.z);
    lemma_signs_row(v.z, w.xyz, w.x, w.y, w.z);
    lemma_signs(w.x, v.x);
    lemma_signs(w.x, v.y);
    lemma_signs(w.x, v.z);
    lemma_signs(w.y, v.x);
    lemma_signs(w.y, v.y);
    lemma_signs(w.y, v.z);
    lemma_signs(w.z, v.x);
    lemma_signs(w.z, v.y);
    lemma_signs(w.z, v.z);
}

/// Negating a factor negates the product of even elements.
pub proof fn lemma_negated_factor(a: EvenModel, b: EvenModel)
    ensures
        negated(a).mul_even(b) == negated(a.mul_even(b)),
        a.mul_even(negated(b)) == negated(a.mul_even(b)),
{
    lemma_signs_row(a.sca, b.sca, b.yz, b.zx, b.xy);
    lemma_signs_row(a.yz, b.sca, b.yz, b.zx, b.xy);
    lemma_signs_row(a.zx, b.sca, b.yz, b.zx, b.xy);
    lemma_signs_row(a.xy, b.sca, b.yz, b.zx, b.xy);
    lemma_signs_row(b.sca, a.sca, a.yz, a.zx, a.xy);
    lemma_signs_row(b.yz, a.sca, a.yz, a.zx, a.xy);
    lemma_signs_row(b.zx, a.sca, a.yz, a.zx, a.xy);
    lemma_signs_row(b.xy, a.sca, a.yz, a.zx, a.xy);
}

} // verus!
