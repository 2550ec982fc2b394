//! In the exact algebra, conjugating by an element and then by its inverse
//! changes nothing.

use vstd::prelude::*;
use crate::associativity::{
    lemma_associative_even_even_even, lemma_associative_even_even_odd,
    lemma_associative_even_odd_even, lemma_associative_odd_even_even,
};
use crate::identities::lemma_zero;
use crate::laws::{
    lemma_inverse_magnitude_even, lemma_inverse_product_even, lemma_norm_nonnegative_even,
};
use crate::model::{EvenModel, OddModel};

verus! {

/// A scalar times an odd element scales each numerator.
pub proof fn lemma_scalar_times_odd(s: EvenModel, w: OddModel)
    requires
        s.yz == 0,
        s.zx == 0,
        s.xy == 0,
    ensures
        s.mul_odd(w) == (OddModel {
            xyz: s.sca * w.xyz,
            x: s.sca * w.x,
            y: s.sca * w.y,
            z: s.sca * w.z,
            den: s.den * w.den,
        }),
{
    lemma_zero(w.xyz);
    lemma_zero(w.x);
    lemma_zero(w.y);
    lemma_zero(w.z);
}

/// An odd element times a scalar scales each numerator.
pub proof fn lemma_odd_times_scalar(w: OddModel, s: EvenModel)
    requires
        s.yz == 0,
        s.zx == 0,
        s.xy == 0,
    ensures
        w.mul_even(s) == (OddModel {
            xyz: w.xyz * s.sca,
            x: w.x * s.sca,
            y: w.y * s.sca,
            z: w.z * s.sca,
            den: w.den * s.den,
        }),
{
    lemma_zero(w.xyz);
    lemma_zero(w.x);
    lemma_zero(w.y);
    lemma_zero(w.z);
}

/// A scalar times an even element, and an even element times a scalar,
/// scale each numerator.
pub proof fn lemma_scalar_and_even(s: EvenModel, v: EvenModel)
    requires
        s.yz == 0,
        s.zx == 0,
        s.xy == 0,
    ensures
        s.mul_even(v) == (EvenModel {
            sca: s.sca * v.sca,
            yz: s.sca * v.yz,
            zx: s.sca * v.zx,
            xy: s.sca * v.xy,
            den: s.den * v.den,
        }),
        v.mul_even(s) == (EvenModel {
            sca: v.sca * s.sca,
            yz: v.yz * s.sca,
            zx: v.zx * s.sca,
            xy: v.xy * s.sca,
            den: v.den * s.den,
        }),
{
    lemma_zero(v.sca);
    lemma_zero(v.yz);
    lemma_zero(v.zx);
    lemma_zero(v.xy);
}

/// `x` scaled by `k` and by `m`, over a denominator scaled alike, is `x`
/// over its own denominator.
proof fn lemma_same_after_scaling(k: int, m: int, x: int, d: int)
    ensures
        ((k * x) * m) * d == x * ((k * d) * m),
{
    assert(((k * x) * m) * d == x * ((k * d) * m)) by (nonlinear_arith);
}

/// The denominators that conjugating twice multiplies together are positive.
proof fn lemma_scales_positive(a: EvenModel, d: int)
    requires
        a.valid(),
        a.norm() != 0,
        d > 0,
    ensures
        a.norm() * a.den == a.den * a.norm(),
        a.inv().norm() * a.inv().den > 0,
        ((a.den * a.norm()) * d) * (a.inv().norm() * a.inv().den) > 0,
{
    lemma_norm_nonnegative_even(a);
    lemma_inverse_magnitude_even(a);
    let n = a.norm();
    let e = a.den;
    let m = a.inv().norm();
    assert(n * e == e * n && m * n > 0 && ((e * n) * d) * (m * n) > 0) by (nonlinear_arith)
        requires
            n > 0,
            e > 0,
            d > 0,
            m == n * (e * e),
    ;
}

/// Conjugating an odd element by the inverse of an even element and then by
/// the element itself gives the odd element back.
pub proof fn lemma_round_trip_even_odd(a: EvenModel, w: OddModel)
    requires
        a.valid(),
        w.valid(),
        a.norm() != 0,
    ensures
        a.sandwich_odd(a.inv().sandwich_odd(w)).valid(),
        a.sandwich_odd(a.inv().sandwich_odd(w)).same_value(w),
{
    let i = a.inv();
    let ii = i.inv();
    // a * ((i * w) * ii) * i  ==  ((a * i) * w) * (ii * i)
    lemma_associative_even_odd_even(a, i.mul_odd(w), ii);
    lemma_associative_even_even_odd(a, i, w);
    let scaled = a.mul_even(i).mul_odd(w);
    lemma_associative_odd_even_even(scaled, ii, i);
    assert(a.sandwich_odd(i.sandwich_odd(w)) == scaled.mul_even(ii.mul_even(i)));
    // Both brackets are scalars with equal numerator and denominator.
    lemma_inverse_product_even(a);
    lemma_inverse_product_even(i);
    lemma_scalar_times_odd(a.mul_even(i), w);
    lemma_odd_times_scalar(scaled, ii.mul_even(i));
    lemma_scales_positive(a, w.den);
    let k = a.den * a.norm();
    let m = i.norm() * i.den;
    lemma_same_after_scaling(k, m, w.xyz, w.den);
    lemma_same_after_scaling(k, m, w.x, w.den);
    lemma_same_after_scaling(k, m, w.y, w.den);
    lemma_same_after_scaling(k, m, w.z, w.den);
}

/// Conjugating an even element by the inverse of an even element and then
/// by the element itself gives the even element back.
pub proof fn lemma_round_trip_even_even(a: EvenModel, v: EvenModel)
    requires
        a.valid(),
        v.valid(),
        a.norm() != 0,
    ensures
        a.sandwich_even(a.inv().sandwich_even(v)).valid(),
        a.sandwich_even(a.inv().sandwich_even(v)).same_value(v),
{
    let i = a.inv();
    let ii = i.inv();
    lemma_associative_even_even_even(a, i.mul_even(v), ii);
    lemma_associative_even_even_even(a, i, v);
    let scaled = a.mul_even(i).mul_even(v);
    lemma_associative_even_even_even(scaled, ii, i);
    assert(a.sandwich_even(i.sandwich_even(v)) == scaled.mul_even(ii.mul_even(i)));
    lemma_inverse_product_even(a);
    lemma_inverse_product_even(i);
    lemma_scalar_and_even(a.mul_even(i), v);
    lemma_scalar_and_even(ii.mul_even(i), scaled);
    lemma_scales_positive(a, v.den);
    let k = a.den * a.norm();
    let m = i.norm() * i.den;
    lemma_same_after_scaling(k, m, v.sca, v.den);
    lemma_same_after_scaling(k, m, v.yz, v.den);
    lemma_same_after_scaling(k, m, v.zx, v.den);
    lemma_same_after_scaling(k, m, v.xy, v.den);
}

} // verus!
