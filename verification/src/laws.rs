//! What holds of the exact arithmetic of the models, whatever the elements.
//! A stored result is one of these exact results rounded: it differs from
//! it by less than `1 / UNIT` in each component.

use vstd::prelude::*;
use crate::exact::lemma_square_nonnegative;
use crate::dual::{
    dual_of_odd, lemma_dual_norm, lemma_even_odd_through_dual, lemma_odd_even_through_dual,
    lemma_odd_odd_through_dual,
};
use crate::identities::{
    lemma_four_by_one, lemma_four_square, lemma_positive_product, lemma_scaled_squares,
    lemma_signs, lemma_square_of_product, lemma_square_scaled,
};
use crate::model::{EvenModel, OddModel, RatioModel};


verus! {

/// `m` times `n` is one.
pub open spec fn reciprocal(m: RatioModel, n: RatioModel) -> bool {
    m.num * n.num == m.den * n.den
}

/// The squared magnitude of a product of two even elements is the product
/// of their squared magnitudes.
pub proof fn lemma_norm_even_even(a: EvenModel, b: EvenModel)
    ensures
        a.mul_even(b).norm() == a.norm() * b.norm(),
{
    lemma_four_square(a.sca, a.yz, a.zx, a.xy, b.sca, b.yz, b.zx, b.xy);
}

/// The squared magnitude of the product of an even element with an odd one
/// is the product of their squared magnitudes.
pub proof fn lemma_norm_even_odd(a: EvenModel, b: OddModel)
    ensures
        a.mul_odd(b).norm() == a.norm() * b.norm(),
{
    let q = dual_of_odd(b);
    lemma_even_odd_through_dual(a, b);
    lemma_norm_even_even(a, q);
    lemma_dual_norm(a.mul_even(q), b);
}

/// The squared magnitude of the product of two odd elements is the product
/// of their squared magnitudes.
pub proof fn lemma_norm_odd_odd(a: OddModel, b: OddModel)
    ensures
        a.mul_odd(b).norm() == a.norm() * b.norm(),
{
    let (p, q) = (dual_of_odd(a), dual_of_odd(b));
    lemma_odd_odd_through_dual(a, b);
    lemma_norm_even_even(p, q);
    lemma_dual_norm(p.mul_even(q), a);
    lemma_dual_norm(p.mul_even(q), b);
}

/// The squared magnitude of the product of an odd element with an even one
/// is the product of their squared magnitudes.
pub proof fn lemma_norm_odd_even(a: OddModel, b: EvenModel)
    ensures
        a.mul_even(b).norm() == a.norm() * b.norm(),
{
    let p = dual_of_odd(a);
    lemma_odd_even_through_dual(a, b);
    lemma_norm_even_even(p, b);
    lemma_dual_norm(p.mul_even(b), a);
}

/// The sum of the squares of an even element's numerators is not negative.
pub proof fn lemma_norm_nonnegative_even(a: EvenModel)
    ensures
        a.norm() >= 0,
{
    lemma_square_nonnegative(a.sca);
    lemma_square_nonnegative(a.yz);
    lemma_square_nonnegative(a.zx);
    lemma_square_nonnegative(a.xy);
}

/// Reversing an even element twice gives the element back, and reversing
/// once keeps its squared magnitude.
pub proof fn lemma_rev_even(a: EvenModel)
    ensures
        a.rev().rev() == a,
        a.rev().norm() == a.norm(),
        a.rev().mag2() == a.mag2(),
{
    lemma_signs(a.yz, a.yz);
    lemma_signs(a.zx, a.zx);
    lemma_signs(a.xy, a.xy);
}

/// The squared magnitude of the inverse of an even element is the
/// reciprocal of the element's squared magnitude.
pub proof fn lemma_inverse_magnitude_even(a: EvenModel)
    ensures
        a.inv().norm() == a.norm() * (a.den * a.den),
        reciprocal(a.inv().mag2(), a.mag2()),
{
    lemma_scaled_squares(a.sca, -a.yz, -a.zx, -a.xy, a.den);
    lemma_signs(a.yz, a.yz);
    lemma_signs(a.zx, a.zx);
    lemma_signs(a.xy, a.xy);
    lemma_reciprocal(a.norm(), a.den * a.den);
}

/// `(s * d) / (s * s)` times `s / d` is one.
proof fn lemma_reciprocal(s: int, d: int)
    ensures
        (s * d) * s == (s * s) * d,
{
    assert((s * d) * s == (s * s) * d) by (nonlinear_arith);
}

/// The arithmetic behind the magnitude of a conjugate: `s` and `d` are the
/// sum of squares and the denominator of the element that conjugates, `n`
/// and `e` those of the element that is conjugated.
proof fn lemma_sandwich_ratio(s: int, n: int, d: int, e: int)
    ensures
        ((s * n) * (s * (d * d))) * (e * e) == n * (((d * e) * s) * ((d * e) * s)),
{
    lemma_square_of_product(d * e, s);
    lemma_square_of_product(d, e);
    let dd = d * d;
    let ee = e * e;
    let ss = s * s;
    assert(((s * n) * (s * dd)) * ee == n * ((dd * ee) * ss)) by (nonlinear_arith)
        requires
            ss == s * s,
    ;
}

/// Conjugation by an even element keeps the squared magnitude of an even
/// element.
pub proof fn lemma_sandwich_magnitude_even_even(a: EvenModel, v: EvenModel)
    ensures
        a.sandwich_even(v).mag2().same_value(v.mag2()),
{
    lemma_norm_even_even(a, v);
    lemma_norm_even_even(a.mul_even(v), a.inv());
    lemma_inverse_magnitude_even(a);
    lemma_sandwich_ratio(a.norm(), v.norm(), a.den, v.den);
}

/// Conjugation by an even element keeps the squared magnitude of an odd
/// element: a rotor turns a vector without stretching it.
pub proof fn lemma_sandwich_magnitude_even_odd(a: EvenModel, v: OddModel)
    ensures
        a.sandwich_odd(v).mag2().same_value(v.mag2()),
{
    lemma_norm_even_odd(a, v);
    lemma_norm_odd_even(a.mul_odd(v), a.inv());
    lemma_inverse_magnitude_even(a);
    lemma_sandwich_ratio(a.norm(), v.norm(), a.den, v.den);
}

/// The sum of the squares of an odd element's numerators is not negative.
pub proof fn lemma_norm_nonnegative_odd(a: OddModel)
    ensures
        a.norm() >= 0,
{
    lemma_square_nonnegative(a.xyz);
    lemma_square_nonnegative(a.x);
    lemma_square_nonnegative(a.y);
    lemma_square_nonnegative(a.z);
}

/// Reversing an odd element twice gives the element back, and reversing
/// once keeps its squared magnitude.
pub proof fn lemma_rev_odd(a: OddModel)
    ensures
        a.rev().rev() == a,
        a.rev().norm() == a.norm(),
        a.rev().mag2() == a.mag2(),
{
    lemma_signs(a.xyz, a.xyz);
}

/// The squared magnitude of the inverse of an odd element is the
/// reciprocal of the element's squared magnitude.
pub proof fn lemma_inverse_magnitude_odd(a: OddModel)
    ensures
        a.inv().norm() == a.norm() * (a.den * a.den),
        reciprocal(a.inv().mag2(), a.mag2()),
{
    lemma_scaled_squares(-a.xyz, a.x, a.y, a.z, a.den);
    lemma_signs(a.xyz, a.xyz);
    lemma_reciprocal(a.norm(), a.den * a.den);
}

/// Conjugation by an odd element keeps the squared magnitude of an even
/// element.
pub proof fn lemma_sandwich_magnitude_odd_even(a: OddModel, v: EvenModel)
    ensures
        a.sandwich_even(v).mag2().same_value(v.mag2()),
{
    lemma_norm_odd_even(a, v);
    lemma_norm_odd_odd(a.mul_even(v), a.inv());
    lemma_inverse_magnitude_odd(a);
    lemma_sandwich_ratio(a.norm(), v.norm(), a.den, v.den);
}

/// Conjugation by an odd element keeps the squared magnitude of an odd
/// element.
pub proof fn lemma_sandwich_magnitude_odd_odd(a: OddModel, v: OddModel)
    ensures
        a.sandwich_odd(v).mag2().same_value(v.mag2()),
{
    lemma_norm_odd_odd(a, v);
    lemma_norm_even_odd(a.mul_odd(v), a.inv());
    lemma_inverse_magnitude_odd(a);
    lemma_sandwich_ratio(a.norm(), v.norm(), a.den, v.den);
}

/// An even element times its inverse, in either order, is a scalar whose
/// numerator and denominator are equal.
pub proof fn lemma_inverse_product_even(a: EvenModel)
    ensures
        a.mul_even(a.inv()) == (EvenModel {
            sca: a.norm() * a.den,
            yz: 0,
            zx: 0,
            xy: 0,
            den: a.den * a.norm(),
        }),
        a.inv().mul_even(a) == (EvenModel {
            sca: a.norm() * a.den,
            yz: 0,
            zx: 0,
            xy: 0,
            den: a.norm() * a.den,
        }),
{
    let (s, p, q, r, d) = (a.sca, a.yz, a.zx, a.xy, a.den);
    lemma_square_scaled(s, d);
    lemma_square_scaled(p, d);
    lemma_square_scaled(q, d);
    lemma_square_scaled(r, d);
    lemma_four_by_one(s * s, p * p, q * q, r * r, d);
    assert(p * (s * d) + s * (-p * d) + r * (-q * d) - q * (-r * d) == 0) by (nonlinear_arith);
    assert(q * (s * d) + s * (-q * d) + p * (-r * d) - r * (-p * d) == 0) by (nonlinear_arith);
    assert(r * (s * d) + s * (-r * d) + q * (-p * d) - p * (-q * d) == 0) by (nonlinear_arith);
    assert((-p * d) * s + (s * d) * p + (-r * d) * q - (-q * d) * r == 0) by (nonlinear_arith);
    assert((-q * d) * s + (s * d) * q + (-p * d) * r - (-r * d) * p == 0) by (nonlinear_arith);
    assert((-r * d) * s + (s * d) * r + (-q * d) * p - (-p * d) * q == 0) by (nonlinear_arith);
}

/// An odd element times its inverse, in either order, is a scalar whose
/// numerator and denominator are equal.
pub proof fn lemma_inverse_product_odd(a: OddModel)
    ensures
        a.mul_odd(a.inv()) == (EvenModel {
            sca: a.norm() * a.den,
            yz: 0,
            zx: 0,
            xy: 0,
            den: a.den * a.norm(),
        }),
        a.inv().mul_odd(a) == (EvenModel {
            sca: a.norm() * a.den,
            yz: 0,
            zx: 0,
            xy: 0,
            den: a.norm() * a.den,
        }),
{
    let (t, x, y, z, d) = (a.xyz, a.x, a.y, a.z, a.den);
    lemma_square_scaled(t, d);
    lemma_square_scaled(x, d);
    lemma_square_scaled(y, d);
    lemma_square_scaled(z, d);
    lemma_four_by_one(t * t, x * x, y * y, z * z, d);
    assert(x * (-t * d) + t * (x * d) + y * (z * d) - z * (y * d) == 0) by (nonlinear_arith);
    assert(y * (-t * d) + t * (y * d) + z * (x * d) - x * (z * d) == 0) by (nonlinear_arith);
    assert(z * (-t * d) + t * (z * d) + x * (y * d) - y * (x * d) == 0) by (nonlinear_arith);
    assert((x * d) * t + (-t * d) * x + (y * d) * z - (z * d) * y == 0) by (nonlinear_arith);
    assert((y * d) * t + (-t * d) * y + (z * d) * x - (x * d) * z == 0) by (nonlinear_arith);
    assert((z * d) * t + (-t * d) * z + (x * d) * y - (y * d) * x == 0) by (nonlinear_arith);
}

/// An odd element times its reverse, in either order, is its squared
/// magnitude as a scalar.
pub proof fn lemma_reverse_product_odd(a: OddModel)
    ensures
        a.rev().mul_odd(a) == EvenModel::from_sca(a.mag2()),
        a.mul_odd(a.rev()) == EvenModel::from_sca(a.mag2()),
{
    let (t, x, y, z) = (a.xyz, a.x, a.y, a.z);
    assert(x * x + y * y + z * z - (-t) * t == t * t + x * x + y * y + z * z) by (nonlinear_arith);
    assert(x * t + (-t) * x + y * z - z * y == 0) by (nonlinear_arith);
    assert(y * t + (-t) * y + z * x - x * z == 0) by (nonlinear_arith);
    assert(z * t + (-t) * z + x * y - y * x == 0) by (nonlinear_arith);
    assert(x * x + y * y + z * z - t * (-t) == t * t + x * x + y * y + z * z) by (nonlinear_arith);
    assert(x * (-t) + t * x + y * z - z * y == 0) by (nonlinear_arith);
    assert(y * (-t) + t * y + z * x - x * z == 0) by (nonlinear_arith);
    assert(z * (-t) + t * z + x * y - y * x == 0) by (nonlinear_arith);
}

/// An even element times its reverse, in either order, is its squared
/// magnitude as a scalar.
pub proof fn lemma_reverse_product_even(a: EvenModel)
    ensures
        a.rev().mul_even(a) == EvenModel::from_sca(a.mag2()),
        a.mul_even(a.rev()) == EvenModel::from_sca(a.mag2()),
{
    let (s, p, q, r) = (a.sca, a.yz, a.zx, a.xy);
    assert(s * s - (-p) * p - (-q) * q - (-r) * r == s * s + p * p + q * q + r * r)
        by (nonlinear_arith);
    assert((-p) * s + s * p + (-r) * q - (-q) * r == 0) by (nonlinear_arith);
    assert((-q) * s + s * q + (-p) * r - (-r) * p == 0) by (nonlinear_arith);
    assert((-r) * s + s * r + (-q) * p - (-p) * q == 0) by (nonlinear_arith);
    assert(s * s - p * (-p) - q * (-q) - r * (-r) == s * s + p * p + q * q + r * r)
        by (nonlinear_arith);
    assert(p * s + s * (-p) + r * (-q) - q * (-r) == 0) by (nonlinear_arith);
    assert(q * s + s * (-q) + p * (-r) - r * (-p) == 0) by (nonlinear_arith);
    assert(r * s + s * (-r) + q * (-p) - p * (-q) == 0) by (nonlinear_arith);
}

/// An element of nonzero magnitude times its inverse is the scalar one.
pub proof fn lemma_inverse_identity_even(a: EvenModel)
    requires
        a.valid(),
        a.norm() != 0,
    ensures
        a.inv().valid(),
        a.mul_even(a.inv()).valid(),
        a.mul_even(a.inv()).same_value(EvenModel::one()),
        a.inv().mul_even(a).same_value(EvenModel::one()),
{
    lemma_inverse_product_even(a);
    lemma_norm_nonnegative_even(a);
    lemma_positive_product(a.den, a.norm());
}

/// An odd element of nonzero magnitude times its inverse is the scalar one.
pub proof fn lemma_inverse_identity_odd(a: OddModel)
    requires
        a.valid(),
        a.norm() != 0,
    ensures
        a.inv().valid(),
        a.mul_odd(a.inv()).valid(),
        a.mul_odd(a.inv()).same_value(EvenModel::one()),
        a.inv().mul_odd(a).same_value(EvenModel::one()),
{
    lemma_inverse_product_odd(a);
    lemma_norm_nonnegative_odd(a);
    lemma_positive_product(a.den, a.norm());
}

/// Equal quotients: `a / b == c / d` and `c / d == e / f` give
/// `a / b == e / f`, all written without division.
proof fn lemma_quotients_chain(a: int, b: int, c: int, d: int, e: int, f: int)
    requires
        d != 0,
        a * d == c * b,
        c * f == e * d,
    ensures
        a * f == e * b,
{
    assert((a * f) * d == (a * d) * f && (e * b) * d == (e * d) * b) by (nonlinear_arith);
    assert((c * b) * f == (c * f) * b) by (nonlinear_arith);
    assert(a * f == e * b) by (nonlinear_arith)
        requires
            (a * f) * d == (e * b) * d,
            d != 0,
    ;
}

/// Standing for the same even element is an equivalence.
pub proof fn lemma_same_value_even(a: EvenModel, b: EvenModel, c: EvenModel)
    requires
        b.valid(),
    ensures
        a.same_value(a),
        a.same_value(b) ==> b.same_value(a),
        a.same_value(b) && b.same_value(c) ==> a.same_value(c),
{
    if a.same_value(b) && b.same_value(c) {
        lemma_quotients_chain(a.sca, a.den, b.sca, b.den, c.sca, c.den);
        lemma_quotients_chain(a.yz, a.den, b.yz, b.den, c.yz, c.den);
        lemma_quotients_chain(a.zx, a.den, b.zx, b.den, c.zx, c.den);
        lemma_quotients_chain(a.xy, a.den, b.xy, b.den, c.xy, c.den);
    }
}

/// Standing for the same odd element is an equivalence.
pub proof fn lemma_same_value_odd(a: OddModel, b: OddModel, c: OddModel)
    requires
        b.valid(),
    ensures
        a.same_value(a),
        a.same_value(b) ==> b.same_value(a),
        a.same_value(b) && b.same_value(c) ==> a.same_value(c),
{
    if a.same_value(b) && b.same_value(c) {
        lemma_quotients_chain(a.xyz, a.den, b.xyz, b.den, c.xyz, c.den);
        lemma_quotients_chain(a.x, a.den, b.x, b.den, c.x, c.den);
        lemma_quotients_chain(a.y, a.den, b.y, b.den, c.y, c.den);
        lemma_quotients_chain(a.z, a.den, b.z, b.den, c.z, c.den);
    }
}

/// Over one denominator `d`, adding or subtracting numerators is adding or
/// subtracting the quotients.
proof fn lemma_one_denominator(x: int, y: int, d: int)
    ensures
        (x + y) * (d * d) == (x * d + y * d) * d,
        (x - y) * (d * d) == (x * d - y * d) * d,
{
    assert((x + y) * (d * d) == (x * d + y * d) * d && (x - y) * (d * d) == (x * d - y * d) * d)
        by (nonlinear_arith);
}

/// The sum and the difference of even elements stand for the sum and the
/// difference of their quotients, over one denominator or over two.
pub proof fn lemma_add_sub_even(a: EvenModel, b: EvenModel)
    requires
        a.valid(),
        b.valid(),
    ensures
        a.add(b).valid(),
        a.sub(b).valid(),
        a.add(b).same_value(
            EvenModel {
                sca: a.sca * b.den + b.sca * a.den,
                yz: a.yz * b.den + b.yz * a.den,
                zx: a.zx * b.den + b.zx * a.den,
                xy: a.xy * b.den + b.xy * a.den,
                den: a.den * b.den,
            },
        ),
        a.sub(b).same_value(
            EvenModel {
                sca: a.sca * b.den - b.sca * a.den,
                yz: a.yz * b.den - b.yz * a.den,
                zx: a.zx * b.den - b.zx * a.den,
                xy: a.xy * b.den - b.xy * a.den,
                den: a.den * b.den,
            },
        ),
{
    lemma_positive_product(a.den, b.den);
    if a.den == b.den {
        lemma_one_denominator(a.sca, b.sca, a.den);
        lemma_one_denominator(a.yz, b.yz, a.den);
        lemma_one_denominator(a.zx, b.zx, a.den);
        lemma_one_denominator(a.xy, b.xy, a.den);
    }
}

/// The sum and the difference of odd elements stand for the sum and the
/// difference of their quotients, over one denominator or over two.
pub proof fn lemma_add_sub_odd(a: OddModel, b: OddModel)
    requires
        a.valid(),
        b.valid(),
    ensures
        a.add(b).valid(),
        a.sub(b).valid(),
        a.add(b).same_value(
            OddModel {
                xyz: a.xyz * b.den + b.xyz * a.den,
                x: a.x * b.den + b.x * a.den,
                y: a.y * b.den + b.y * a.den,
                z: a.z * b.den + b.z * a.den,
                den: a.den * b.den,
            },
        ),
        a.sub(b).same_value(
            OddModel {
                xyz: a.xyz * b.den - b.xyz * a.den,
                x: a.x * b.den - b.x * a.den,
                y: a.y * b.den - b.y * a.den,
                z: a.z * b.den - b.z * a.den,
                den: a.den * b.den,
            },
        ),
{
    lemma_positive_product(a.den, b.den);
    if a.den == b.den {
        lemma_one_denominator(a.xyz, b.xyz, a.den);
        lemma_one_denominator(a.x, b.x, a.den);
        lemma_one_denominator(a.y, b.y, a.den);
        lemma_one_denominator(a.z, b.z, a.den);
    }
}

} // verus!
