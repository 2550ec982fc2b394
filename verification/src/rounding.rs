//! How far a stored result is from the exact one.
//!
//! Rounding towards zero loses less than one unit of `1 / UNIT` in each
//! component and keeps signs and zeros. From that follows how close an
//! element times its stored inverse is to one.

use vstd::prelude::*;
use vstd::arithmetic::div_mod::lemma_fundamental_div_mod;
use crate::exact::{lemma_square_nonnegative, lemma_trunc_cancel, trunc_div, UNIT};
use crate::identities::{
    lemma_four_by_one, lemma_mul_assoc, lemma_scaled_squares, lemma_signs, lemma_small_square,
    lemma_square_of_product,
};
use crate::laws::{
    lemma_inverse_magnitude_even, lemma_inverse_magnitude_odd, lemma_norm_even_even,
    lemma_norm_even_odd, lemma_norm_odd_even, lemma_norm_odd_odd,
};
use crate::model::{EvenModel, OddModel};

verus! {

/// The magnitude of a number.
pub open spec fn magnitude_of(x: int) -> int {
    if x < 0 {
        -x
    } else {
        x
    }
}

/// `r` is the element `x` within `k` units of `1 / UNIT` in each component.
pub open spec fn even_within(r: EvenModel, x: EvenModel, k: int) -> bool {
    &&& magnitude_of(r.sca * x.den - x.sca * r.den) * UNIT <= k * (x.den * r.den)
    &&& magnitude_of(r.yz * x.den - x.yz * r.den) * UNIT <= k * (x.den * r.den)
    &&& magnitude_of(r.zx * x.den - x.zx * r.den) * UNIT <= k * (x.den * r.den)
    &&& magnitude_of(r.xy * x.den - x.xy * r.den) * UNIT <= k * (x.den * r.den)
}

/// `r` is the element `x` within `k` units of `1 / UNIT` in each component.
pub open spec fn odd_within(r: OddModel, x: OddModel, k: int) -> bool {
    &&& magnitude_of(r.xyz * x.den - x.xyz * r.den) * UNIT <= k * (x.den * r.den)
    &&& magnitude_of(r.x * x.den - x.x * r.den) * UNIT <= k * (x.den * r.den)
    &&& magnitude_of(r.y * x.den - x.y * r.den) * UNIT <= k * (x.den * r.den)
    &&& magnitude_of(r.z * x.den - x.z * r.den) * UNIT <= k * (x.den * r.den)
}

/// The quotient rounded towards zero leaves a remainder smaller than the
/// divisor, on the side of the dividend, and keeps sign and zero.
pub proof fn lemma_trunc_div(x: int, d: int)
    requires
        d > 0,
    ensures
        -d < x - trunc_div(x, d) * d < d,
        x >= 0 ==> 0 <= x - trunc_div(x, d) * d && trunc_div(x, d) >= 0,
        x <= 0 ==> x - trunc_div(x, d) * d <= 0 && trunc_div(x, d) <= 0,
        x == 0 ==> trunc_div(x, d) == 0,
{
    let t = trunc_div(x, d);
    if x >= 0 {
        lemma_fundamental_div_mod(x, d);
        assert(d * (x / d) == (x / d) * d) by (nonlinear_arith);
        assert(t >= 0) by (nonlinear_arith)
            requires
                x - t * d < d,
                x >= 0,
                d > 0,
        ;
    } else {
        lemma_fundamental_div_mod(-x, d);
        let q = (-x) / d;
        assert(d * q == q * d && (-q) * d == -(q * d)) by (nonlinear_arith);
        assert(q >= 0) by (nonlinear_arith)
            requires
                -x - q * d < d,
                -x >= 0,
                d > 0,
        ;
    }
    if x == 0 && t != 0 {
        assert(false) by (nonlinear_arith)
            requires
                -d < 0 - t * d < d,
                t != 0,
                d > 0,
        ;
    }
}

/// One rounded numerator is within one unit of the exact one.
proof fn lemma_rounded_part(n: int, d: int)
    requires
        d > 0,
    ensures
        magnitude_of(trunc_div(n * UNIT, d) * d - n * UNIT) * UNIT <= 1 * (d * UNIT),
{
    lemma_trunc_div(n * UNIT, d);
    let e = magnitude_of(trunc_div(n * UNIT, d) * d - n * UNIT);
    assert(e * UNIT <= 1 * (d * UNIT)) by (nonlinear_arith)
        requires
            0 <= e < d,
    ;
}

/// A rounded even element is within one unit of the exact one in each
/// component.
pub proof fn lemma_rounded_even(x: EvenModel)
    requires
        x.valid(),
    ensures
        even_within(x.rounded(), x, 1),
{
    lemma_rounded_part(x.sca, x.den);
    lemma_rounded_part(x.yz, x.den);
    lemma_rounded_part(x.zx, x.den);
    lemma_rounded_part(x.xy, x.den);
}

/// A rounded odd element is within one unit of the exact one in each
/// component.
pub proof fn lemma_rounded_odd(x: OddModel)
    requires
        x.valid(),
    ensures
        odd_within(x.rounded(), x, 1),
{
    lemma_rounded_part(x.xyz, x.den);
    lemma_rounded_part(x.x, x.den);
    lemma_rounded_part(x.y, x.den);
    lemma_rounded_part(x.z, x.den);
}

/// Of two numbers that are not negative, the smaller has the smaller square.
pub proof fn lemma_square_order(x: int, y: int)
    requires
        0 <= x <= y,
    ensures
        x * x <= y * y,
        x < y ==> x * x < y * y,
{
    assert(x * x <= y * y && (x < y ==> x * x < y * y)) by (nonlinear_arith)
        requires
            0 <= x <= y,
    ;
}

/// The square of a rounded quotient, brought back over the divisor,
/// encloses the square of the dividend.
pub proof fn lemma_trunc_square(x: int, d: int) -> (t: int)
    requires
        d > 0,
    ensures
        t == magnitude_of(trunc_div(x, d)),
        t * t == trunc_div(x, d) * trunc_div(x, d),
        (t * t) * (d * d) <= x * x,
        ((t + 1) * (t + 1)) * (d * d) > x * x,
{
    let r = trunc_div(x, d);
    lemma_trunc_div(x, d);
    let t = magnitude_of(r);
    let a = magnitude_of(x);
    lemma_signs(r, r);
    lemma_signs(x, x);
    assert((-r) * d == -(r * d)) by (nonlinear_arith);
    assert(t * d <= a < (t + 1) * d) by (nonlinear_arith)
        requires
            -d < x - r * d < d,
            x >= 0 ==> 0 <= x - r * d && r >= 0,
            x <= 0 ==> x - r * d <= 0 && r <= 0,
            t == r || t == -r,
            t >= 0,
            a == x || a == -x,
            a >= 0,
            (-r) * d == -(r * d),
            d > 0,
    ;
    assert(t * d >= 0) by (nonlinear_arith)
        requires
            t >= 0,
            d > 0,
    ;
    lemma_square_order(t * d, a);
    lemma_square_order(a, (t + 1) * d);
    lemma_square_of_product(t, d);
    lemma_square_of_product(t + 1, d);
    t
}

/// What rounding costs a sum of four squares: twice the sum of the
/// magnitudes of the four rounded numbers, and four.
pub open spec fn slack(r1: int, r2: int, r3: int, r4: int) -> int {
    2 * (magnitude_of(r1) + magnitude_of(r2) + magnitude_of(r3) + magnitude_of(r4)) + 4
}

/// The sum of the squares of four rounded quotients, brought back over the
/// divisor, encloses the sum of the squares of the dividends: it is at most
/// that sum, and with the slack added it is more.
pub proof fn lemma_trunc_magnitude(x1: int, x2: int, x3: int, x4: int, d: int)
    requires
        d > 0,
    ensures
        ({
            let (r1, r2, r3, r4) = (
                trunc_div(x1, d),
                trunc_div(x2, d),
                trunc_div(x3, d),
                trunc_div(x4, d),
            );
            let t = r1 * r1 + r2 * r2 + r3 * r3 + r4 * r4;
            let n = x1 * x1 + x2 * x2 + x3 * x3 + x4 * x4;
            &&& t >= 0
            &&& t * (d * d) <= n
            &&& n < (t + slack(r1, r2, r3, r4)) * (d * d)
        }),
{
    let t1 = lemma_trunc_square(x1, d);
    let t2 = lemma_trunc_square(x2, d);
    let t3 = lemma_trunc_square(x3, d);
    let t4 = lemma_trunc_square(x4, d);
    let dd = d * d;
    lemma_four_by_one(t1 * t1, t2 * t2, t3 * t3, t4 * t4, dd);
    lemma_four_by_one(
        (t1 + 1) * (t1 + 1),
        (t2 + 1) * (t2 + 1),
        (t3 + 1) * (t3 + 1),
        (t4 + 1) * (t4 + 1),
        dd,
    );
    let t = t1 * t1 + t2 * t2 + t3 * t3 + t4 * t4;
    let v = (t1 + 1) * (t1 + 1) + (t2 + 1) * (t2 + 1) + (t3 + 1) * (t3 + 1) + (t4 + 1) * (t4 + 1);
    assert(v == t + 2 * (t1 + t2 + t3 + t4) + 4 && t >= 0) by (nonlinear_arith)
        requires
            t == t1 * t1 + t2 * t2 + t3 * t3 + t4 * t4,
            v == (t1 + 1) * (t1 + 1) + (t2 + 1) * (t2 + 1) + (t3 + 1) * (t3 + 1) + (t4 + 1) * (t4
                + 1),
    ;
}

/// Over one positive denominator the smaller numerator is the smaller
/// ratio.
pub proof fn lemma_same_denominator(m: int, n: int, d: int)
    requires
        m <= n,
        d > 0,
    ensures
        m * d <= n * d,
{
    assert(m * d <= n * d) by (nonlinear_arith)
        requires
            m <= n,
            d > 0,
    ;
}

/// What rounding costs the sum of the squares of an even element.
pub open spec fn slack_even(e: EvenModel) -> int {
    slack(e.sca, e.yz, e.zx, e.xy)
}

/// What rounding costs the sum of the squares of an odd element.
pub open spec fn slack_odd(o: OddModel) -> int {
    slack(o.xyz, o.x, o.y, o.z)
}

/// The arithmetic of the magnitude of a stored conjugate. `tw`, `tp` and
/// `ti` are the sums of squares of the conjugate, the first product and the
/// inverse as stored, `ew`, `ep` and `ei` their slacks; `s` and `nv` are the
/// sums of squares of the element that conjugates and of the one that is
/// conjugated; `uu` is the square of `UNIT`.
proof fn lemma_conjugate_magnitude(
    tw: int,
    tp: int,
    ti: int,
    nv: int,
    s: int,
    ew: int,
    ep: int,
    ei: int,
    uu: int,
)
    requires
        s > 0,
        uu > 0,
        nv >= 0,
        tw >= 0,
        tp >= 0,
        ti >= 0,
        ep >= 0,
        ei >= 0,
        tw * uu <= tp * ti < (tw + ew) * uu,
        tp * uu <= s * nv < (tp + ep) * uu,
        ti * (s * s) <= s * (uu * uu) < (ti + ei) * (s * s),
    ensures
        tw <= nv,
        (nv - tw - ew) * uu < ep * ti + ei * tp + ep * ei,
        ti * s <= uu * uu,
{
    let e = uu * uu;
    assert(ti * s <= e < (ti + ei) * s) by (nonlinear_arith)
        requires
            ti * (s * s) <= s * e < (ti + ei) * (s * s),
            s > 0,
    ;
    let k = uu * s;
    assert(k > 0) by (nonlinear_arith)
        requires
            k == uu * s,
            uu > 0,
            s > 0,
    ;
    // The upper bound.
    let (a, b, c) = (tp * uu, s * nv, ti * s);
    assert(a >= 0 && c >= 0 && b >= 0 && e > 0) by (nonlinear_arith)
        requires
            a == tp * uu,
            b == s * nv,
            c == ti * s,
            e == uu * uu,
            tp >= 0,
            ti >= 0,
            uu > 0,
            s > 0,
            nv >= 0,
    ;
    assert(a * c <= b * e) by (nonlinear_arith)
        requires
            0 <= a <= b,
            0 <= c <= e,
    ;
    assert(a * c == (tp * ti) * k && b * e == (nv * uu) * k) by (nonlinear_arith)
        requires
            a == tp * uu,
            b == s * nv,
            c == ti * s,
            e == uu * uu,
            k == uu * s,
    ;
    assert(tp * ti <= nv * uu) by (nonlinear_arith)
        requires
            (tp * ti) * k <= (nv * uu) * k,
            k > 0,
    ;
    assert(tw <= nv) by (nonlinear_arith)
        requires
            tw * uu <= tp * ti,
            tp * ti <= nv * uu,
            uu > 0,
    ;
    // The lower bound.
    let (a2, c2) = ((tp + ep) * uu, (ti + ei) * s);
    assert(a2 * c2 > b * e) by (nonlinear_arith)
        requires
            a2 > b,
            b >= 0,
            c2 > e,
            e > 0,
    ;
    assert(a2 * c2 == ((tp + ep) * (ti + ei)) * k) by (nonlinear_arith)
        requires
            a2 == (tp + ep) * uu,
            c2 == (ti + ei) * s,
            k == uu * s,
    ;
    assert((tp + ep) * (ti + ei) > nv * uu) by (nonlinear_arith)
        requires
            ((tp + ep) * (ti + ei)) * k > (nv * uu) * k,
            k > 0,
    ;
    assert((tp + ep) * (ti + ei) == tp * ti + (ep * ti + ei * tp + ep * ei)) by (nonlinear_arith);
    assert((nv - tw - ew) * uu == nv * uu - (tw + ew) * uu) by (nonlinear_arith);
}

/// Conjugation of an odd element by an even element, as it is stored,
/// does not raise the squared magnitude, and lowers it by no more than the
/// slacks of the three roundings allow. For a unit element that conjugates
/// a vector of length one this is about `24 / UNIT`.
pub proof fn lemma_sandwich_magnitude_stored_even_odd(a: EvenModel, v: OddModel)
    requires
        a.den == UNIT,
        v.den == UNIT,
        a.norm() != 0,
    ensures
        ({
            let i = a.inv().rounded();
            let p = a.mul_odd(v).rounded();
            let w = a.stored_sandwich_odd(v);
            &&& w.norm() <= v.norm()
            &&& (v.norm() - w.norm() - slack_odd(w)) * (UNIT * UNIT) < slack_odd(p) * i.norm()
                + slack_even(i) * p.norm() + slack_odd(p) * slack_even(i)
            &&& 0 <= p.norm() && p.norm() * (UNIT * UNIT) <= a.norm() * v.norm()
            &&& 0 <= i.norm() && i.norm() * a.norm() <= (UNIT * UNIT) * (UNIT * UNIT)
            &&& 0 <= w.norm()
        }),
{
    let i = a.inv().rounded();
    let exact = a.mul_odd(v);
    let p = exact.rounded();
    let second = p.mul_even(i);
    let w = second.rounded();
    let s = a.norm();
    let uu = UNIT * UNIT;
    lemma_square_nonnegative(a.sca);
    lemma_square_nonnegative(a.yz);
    lemma_square_nonnegative(a.zx);
    lemma_square_nonnegative(a.xy);
    lemma_square_nonnegative(v.xyz);
    lemma_square_nonnegative(v.x);
    lemma_square_nonnegative(v.y);
    lemma_square_nonnegative(v.z);
    // The first product.
    lemma_norm_even_odd(a, v);
    lemma_trunc_cancel(exact.xyz);
    lemma_trunc_cancel(exact.x);
    lemma_trunc_cancel(exact.y);
    lemma_trunc_cancel(exact.z);
    lemma_trunc_magnitude(exact.xyz, exact.x, exact.y, exact.z, UNIT as int);
    // The second product.
    lemma_norm_odd_even(p, i);
    lemma_trunc_cancel(second.xyz);
    lemma_trunc_cancel(second.x);
    lemma_trunc_cancel(second.y);
    lemma_trunc_cancel(second.z);
    lemma_trunc_magnitude(second.xyz, second.x, second.y, second.z, UNIT as int);
    // The inverse.
    let inverse = a.inv();
    lemma_inverse_magnitude_even(a);
    lemma_scaled_squares(inverse.sca, inverse.yz, inverse.zx, inverse.xy, UNIT as int);
    lemma_trunc_magnitude(
        inverse.sca * UNIT,
        inverse.yz * UNIT,
        inverse.zx * UNIT,
        inverse.xy * UNIT,
        s,
    );
    assert((s * uu) * uu == s * (uu * uu)) by (nonlinear_arith);
    lemma_conjugate_magnitude(
        w.norm(),
        p.norm(),
        i.norm(),
        v.norm(),
        s,
        slack_odd(w),
        slack_odd(p),
        slack_even(i),
        uu,
    );
}

/// Conjugation of an even element by an even element, as it is stored,
/// does not raise the squared magnitude, and lowers it by no more than the
/// slacks of the three roundings allow. For a unit element that conjugates
/// a vector of length one this is about `24 / UNIT`.
pub proof fn lemma_sandwich_magnitude_stored_even_even(a: EvenModel, v: EvenModel)
    requires
        a.den == UNIT,
        v.den == UNIT,
        a.norm() != 0,
    ensures
        ({
            let i = a.inv().rounded();
            let p = a.mul_even(v).rounded();
            let w = a.stored_sandwich_even(v);
            &&& w.norm() <= v.norm()
            &&& (v.norm() - w.norm() - slack_even(w)) * (UNIT * UNIT) < slack_even(p) * i.norm()
                + slack_even(i) * p.norm() + slack_even(p) * slack_even(i)
            &&& 0 <= p.norm() && p.norm() * (UNIT * UNIT) <= a.norm() * v.norm()
            &&& 0 <= i.norm() && i.norm() * a.norm() <= (UNIT * UNIT) * (UNIT * UNIT)
            &&& 0 <= w.norm()
        }),
{
    let i = a.inv().rounded();
    let exact = a.mul_even(v);
    let p = exact.rounded();
    let second = p.mul_even(i);
    let w = second.rounded();
    let s = a.norm();
    let uu = UNIT * UNIT;
    lemma_square_nonnegative(a.sca);
    lemma_square_nonnegative(a.yz);
    lemma_square_nonnegative(a.zx);
    lemma_square_nonnegative(a.xy);
    lemma_square_nonnegative(v.sca);
    lemma_square_nonnegative(v.yz);
    lemma_square_nonnegative(v.zx);
    lemma_square_nonnegative(v.xy);
    // The first product.
    lemma_norm_even_even(a, v);
    lemma_trunc_cancel(exact.sca);
    lemma_trunc_cancel(exact.yz);
    lemma_trunc_cancel(exact.zx);
    lemma_trunc_cancel(exact.xy);
    lemma_trunc_magnitude(exact.sca, exact.yz, exact.zx, exact.xy, UNIT as int);
    // The second product.
    lemma_norm_even_even(p, i);
    lemma_trunc_cancel(second.sca);
    lemma_trunc_cancel(second.yz);
    lemma_trunc_cancel(second.zx);
    lemma_trunc_cancel(second.xy);
    lemma_trunc_magnitude(second.sca, second.yz, second.zx, second.xy, UNIT as int);
    // The inverse.
    let inverse = a.inv();
    lemma_inverse_magnitude_even(a);
    lemma_scaled_squares(inverse.sca, inverse.yz, inverse.zx, inverse.xy, UNIT as int);
    lemma_trunc_magnitude(
        inverse.sca * UNIT,
        inverse.yz * UNIT,
        inverse.zx * UNIT,
        inverse.xy * UNIT,
        s,
    );
    assert((s * uu) * uu == s * (uu * uu)) by (nonlinear_arith);
    lemma_conjugate_magnitude(
        w.norm(),
        p.norm(),
        i.norm(),
        v.norm(),
        s,
        slack_even(w),
        slack_even(p),
        slack_even(i),
        uu,
    );
}

/// Conjugation of an odd element by an odd element, as it is stored,
/// does not raise the squared magnitude, and lowers it by no more than the
/// slacks of the three roundings allow. For a unit element that conjugates
/// a vector of length one this is about `24 / UNIT`.
pub proof fn lemma_sandwich_magnitude_stored_odd_odd(a: OddModel, v: OddModel)
    requires
        a.den == UNIT,
        v.den == UNIT,
        a.norm() != 0,
    ensures
        ({
            let i = a.inv().rounded();
            let p = a.mul_odd(v).rounded();
            let w = a.stored_sandwich_odd(v);
            &&& w.norm() <= v.norm()
            &&& (v.norm() - w.norm() - slack_odd(w)) * (UNIT * UNIT) < slack_even(p) * i.norm()
                + slack_odd(i) * p.norm() + slack_even(p) * slack_odd(i)
            &&& 0 <= p.norm() && p.norm() * (UNIT * UNIT) <= a.norm() * v.norm()
            &&& 0 <= i.norm() && i.norm() * a.norm() <= (UNIT * UNIT) * (UNIT * UNIT)
            &&& 0 <= w.norm()
        }),
{
    let i = a.inv().rounded();
    let exact = a.mul_odd(v);
    let p = exact.rounded();
    let second = p.mul_odd(i);
    let w = second.rounded();
    let s = a.norm();
    let uu = UNIT * UNIT;
    lemma_square_nonnegative(a.xyz);
    lemma_square_nonnegative(a.x);
    lemma_square_nonnegative(a.y);
    lemma_square_nonnegative(a.z);
    lemma_square_nonnegative(v.xyz);
    lemma_square_nonnegative(v.x);
    lemma_square_nonnegative(v.y);
    lemma_square_nonnegative(v.z);
    // The first product.
    lemma_norm_odd_odd(a, v);
    lemma_trunc_cancel(exact.sca);
    lemma_trunc_cancel(exact.yz);
    lemma_trunc_cancel(exact.zx);
    lemma_trunc_cancel(exact.xy);
    lemma_trunc_magnitude(exact.sca, exact.yz, exact.zx, exact.xy, UNIT as int);
    // The second product.
    lemma_norm_even_odd(p, i);
    lemma_trunc_cancel(second.xyz);
    lemma_trunc_cancel(second.x);
    lemma_trunc_cancel(second.y);
    lemma_trunc_cancel(second.z);
    lemma_trunc_magnitude(second.xyz, second.x, second.y, second.z, UNIT as int);
    // The inverse.
    let inverse = a.inv();
    lemma_inverse_magnitude_odd(a);
    lemma_scaled_squares(inverse.xyz, inverse.x, inverse.y, inverse.z, UNIT as int);
    lemma_trunc_magnitude(
        inverse.xyz * UNIT,
        inverse.x * UNIT,
        inverse.y * UNIT,
        inverse.z * UNIT,
        s,
    );
    assert((s * uu) * uu == s * (uu * uu)) by (nonlinear_arith);
    lemma_conjugate_magnitude(
        w.norm(),
        p.norm(),
        i.norm(),
        v.norm(),
        s,
        slack_odd(w),
        slack_even(p),
        slack_odd(i),
        uu,
    );
}

/// Conjugation of an even element by an odd element, as it is stored,
/// does not raise the squared magnitude, and lowers it by no more than the
/// slacks of the three roundings allow. For a unit element that conjugates
/// a vector of length one this is about `24 / UNIT`.
pub proof fn lemma_sandwich_magnitude_stored_odd_even(a: OddModel, v: EvenModel)
    requires
        a.den == UNIT,
        v.den == UNIT,
        a.norm() != 0,
    ensures
        ({
            let i = a.inv().rounded();
            let p = a.mul_even(v).rounded();
            let w = a.stored_sandwich_even(v);
            &&& w.norm() <= v.norm()
            &&& (v.norm() - w.norm() - slack_even(w)) * (UNIT * UNIT) < slack_odd(p) * i.norm()
                + slack_odd(i) * p.norm() + slack_odd(p) * slack_odd(i)
            &&& 0 <= p.norm() && p.norm() * (UNIT * UNIT) <= a.norm() * v.norm()
            &&& 0 <= i.norm() && i.norm() * a.norm() <= (UNIT * UNIT) * (UNIT * UNIT)
            &&& 0 <= w.norm()
        }),
{
    let i = a.inv().rounded();
    let exact = a.mul_even(v);
    let p = exact.rounded();
    let second = p.mul_odd(i);
    let w = second.rounded();
    let s = a.norm();
    let uu = UNIT * UNIT;
    lemma_square_nonnegative(a.xyz);
    lemma_square_nonnegative(a.x);
    lemma_square_nonnegative(a.y);
    lemma_square_nonnegative(a.z);
    lemma_square_nonnegative(v.sca);
    lemma_square_nonnegative(v.yz);
    lemma_square_nonnegative(v.zx);
    lemma_square_nonnegative(v.xy);
    // The first product.
    lemma_norm_odd_even(a, v);
    lemma_trunc_cancel(exact.xyz);
    lemma_trunc_cancel(exact.x);
    lemma_trunc_cancel(exact.y);
    lemma_trunc_cancel(exact.z);
    lemma_trunc_magnitude(exact.xyz, exact.x, exact.y, exact.z, UNIT as int);
    // The second product.
    lemma_norm_odd_odd(p, i);
    lemma_trunc_cancel(second.sca);
    lemma_trunc_cancel(second.yz);
    lemma_trunc_cancel(second.zx);
    lemma_trunc_cancel(second.xy);
    lemma_trunc_magnitude(second.sca, second.yz, second.zx, second.xy, UNIT as int);
    // The inverse.
    let inverse = a.inv();
    lemma_inverse_magnitude_odd(a);
    lemma_scaled_squares(inverse.xyz, inverse.x, inverse.y, inverse.z, UNIT as int);
    lemma_trunc_magnitude(
        inverse.xyz * UNIT,
        inverse.x * UNIT,
        inverse.y * UNIT,
        inverse.z * UNIT,
        s,
    );
    assert((s * uu) * uu == s * (uu * uu)) by (nonlinear_arith);
    lemma_conjugate_magnitude(
        w.norm(),
        p.norm(),
        i.norm(),
        v.norm(),
        s,
        slack_even(w),
        slack_odd(p),
        slack_odd(i),
        uu,
    );
}

/// The slack of four numbers whose squares sum to less than the square of
/// `b` is at most `8 * b - 4`.
proof fn lemma_slack_bound(r1: int, r2: int, r3: int, r4: int, b: int)
    requires
        b > 0,
        r1 * r1 + r2 * r2 + r3 * r3 + r4 * r4 < b * b,
    ensures
        slack(r1, r2, r3, r4) <= 8 * b - 4,
{
    lemma_square_nonnegative(r1);
    lemma_square_nonnegative(r2);
    lemma_square_nonnegative(r3);
    lemma_square_nonnegative(r4);
    lemma_signs(r1, r1);
    lemma_signs(r2, r2);
    lemma_signs(r3, r3);
    lemma_signs(r4, r4);
    lemma_small_square(magnitude_of(r1), b);
    lemma_small_square(magnitude_of(r2), b);
    lemma_small_square(magnitude_of(r3), b);
    lemma_small_square(magnitude_of(r4), b);
}

/// The arithmetic of a rotation: with the sums of squares and slacks of a
/// stored conjugate bounded as they are for a unit element and a vector of
/// length at most one, the squared magnitude falls by at most `32 * u`.
proof fn lemma_rotation_bounds(
    tw: int,
    tp: int,
    ti: int,
    nv: int,
    s: int,
    ew: int,
    ep: int,
    ei: int,
    u: int,
)
    requires
        u > 10000,
        u * u - 16 * u <= s <= u * u + 16 * u,
        0 <= nv <= u * u,
        0 <= tw <= nv,
        0 <= tp,
        0 <= ti,
        0 <= ep,
        0 <= ei,
        tp * (u * u) <= s * nv,
        ti * s <= (u * u) * (u * u),
    ensures
        tp < (u + 9) * (u + 9),
        ti < (u + 9) * (u + 9),
        tw < (u + 1) * (u + 1),
        (ew <= 8 * u + 4 && ep <= 8 * u + 68 && ei <= 8 * u + 68 && (nv - tw - ew) * (u * u) < ep
            * ti + ei * tp + ep * ei) ==> nv - tw <= 32 * u,
{
    let uu = u * u;
    assert(uu > 0 && uu >= 10000 * u && (u + 9) * (u + 9) == uu + 18 * u + 81 && (u + 1) * (u
        + 1) == uu + 2 * u + 1) by (nonlinear_arith)
        requires
            uu == u * u,
            u > 10000,
    ;
    assert(s * nv <= (uu + 16 * u) * uu) by (nonlinear_arith)
        requires
            0 <= nv <= uu,
            0 <= s <= uu + 16 * u,
    ;
    assert(tp <= uu + 16 * u) by (nonlinear_arith)
        requires
            tp * uu <= (uu + 16 * u) * uu,
            uu > 0,
    ;
    let low = uu - 16 * u;
    assert((uu + 17 * u + 1) * low > uu * uu) by (nonlinear_arith)
        requires
            low == uu - 16 * u,
            uu == u * u,
            u > 10000,
    ;
    assert(ti <= uu + 17 * u) by (nonlinear_arith)
        requires
            ti * s <= uu * uu,
            (uu + 17 * u + 1) * low > uu * uu,
            s >= low,
            low > 0,
            ti >= 0,
    ;
    if ew <= 8 * u + 4 && ep <= 8 * u + 68 && ei <= 8 * u + 68 && (nv - tw - ew) * uu < ep * ti
        + ei * tp + ep * ei {
        let k = 8 * u + 68;
        let a = uu + 17 * u;
        assert(ep * ti <= k * a && ei * tp <= k * a && ep * ei <= k * k) by (nonlinear_arith)
            requires
                0 <= tp <= a,
                0 <= ti <= a,
                0 <= ep <= k,
                0 <= ei <= k,
        ;
        assert(k * a + k * a + k * k == 16 * (u * uu) + 472 * uu + 3400 * u + 4624)
            by (nonlinear_arith)
            requires
                k == 8 * u + 68,
                a == uu + 17 * u,
                uu == u * u,
        ;
        assert((16 * u + 473) * uu == 16 * (u * uu) + 473 * uu) by (nonlinear_arith);
        assert((nv - tw - ew) * uu < (16 * u + 473) * uu);
        assert(nv - tw - ew < 16 * u + 473) by (nonlinear_arith)
            requires
                (nv - tw - ew) * uu < (16 * u + 473) * uu,
                uu > 0,
        ;
    }
}

/// A rotation keeps the length of a vector: conjugation of an odd element
/// of magnitude at most one by an even element of magnitude one within 16
/// units, as it is stored, lowers the squared magnitude by at most 32 units
/// of `1 / UNIT`, which is less than `2e-12`, and never raises it.
pub proof fn lemma_rotation_keeps_magnitude(a: EvenModel, v: OddModel)
    requires
        a.den == UNIT,
        v.den == UNIT,
        UNIT * UNIT - 16 * UNIT <= a.norm() <= UNIT * UNIT + 16 * UNIT,
        v.norm() <= UNIT * UNIT,
    ensures
        0 <= v.norm() - a.stored_sandwich_odd(v).norm() <= 32 * UNIT,
{
    let i = a.inv().rounded();
    let p = a.mul_odd(v).rounded();
    let w = a.stored_sandwich_odd(v);
    lemma_sandwich_magnitude_stored_even_odd(a, v);
    lemma_square_nonnegative(v.xyz);
    lemma_square_nonnegative(v.x);
    lemma_square_nonnegative(v.y);
    lemma_square_nonnegative(v.z);
    let u: int = UNIT as int;
    lemma_rotation_bounds(
        w.norm(),
        p.norm(),
        i.norm(),
        v.norm(),
        a.norm(),
        slack_odd(w),
        slack_odd(p),
        slack_even(i),
        u,
    );
    lemma_slack_bound(p.xyz, p.x, p.y, p.z, u + 9);
    lemma_slack_bound(i.sca, i.yz, i.zx, i.xy, u + 9);
    lemma_slack_bound(w.xyz, w.x, w.y, w.z, u + 1);
}

/// The sum of the magnitudes of the numerators of an even element.
pub open spec fn spread_even(a: EvenModel) -> int {
    magnitude_of(a.sca) + magnitude_of(a.yz) + magnitude_of(a.zx) + magnitude_of(a.xy)
}

/// The sum of the magnitudes of the numerators of an odd element.
pub open spec fn spread_odd(a: OddModel) -> int {
    magnitude_of(a.xyz) + magnitude_of(a.x) + magnitude_of(a.y) + magnitude_of(a.z)
}

/// `p` is the scalar one within `1 + b / UNIT` units of `1 / UNIT` in each
/// component.
pub open spec fn near_identity(p: EvenModel, b: int) -> bool {
    &&& p.den == UNIT
    &&& magnitude_of(p.sca - UNIT) * UNIT <= UNIT + b
    &&& magnitude_of(p.yz) * UNIT <= UNIT + b
    &&& magnitude_of(p.zx) * UNIT <= UNIT + b
    &&& magnitude_of(p.xy) * UNIT <= UNIT + b
}

/// A factor times a remainder is bounded by the factor times the divisor.
proof fn lemma_bounded_product(a: int, e: int, d: int)
    requires
        -d < e < d,
    ensures
        -(magnitude_of(a) * d) <= a * e <= magnitude_of(a) * d,
{
    let m = magnitude_of(a);
    assert(-(m * d) <= a * e <= m * d) by (nonlinear_arith)
        requires
            -d < e < d,
            m >= 0,
            a == m || a == -m,
    ;
}

/// One term of a product with a stored inverse: `u` times the rounded
/// quotient `i` of `(b * UNIT) * UNIT` by `s`, brought over `s`.
proof fn lemma_term(u: int, b: int, i: int, s: int) -> (e: int)
    requires
        s > 0,
        i == trunc_div((b * UNIT) * UNIT, s),
    ensures
        s * (u * i) == (u * b) * (UNIT * UNIT) - u * e,
        -(magnitude_of(u) * s) <= u * e <= magnitude_of(u) * s,
{
    let x = (b * UNIT) * UNIT;
    lemma_trunc_div(x, s);
    let e = x - i * s;
    lemma_bounded_product(u, e, s);
    lemma_mul_assoc(b, UNIT as int, UNIT as int);
    let uu = UNIT * UNIT;
    assert(s * (u * i) == u * (i * s)) by (nonlinear_arith);
    assert(u * (i * s) == u * (b * uu) - u * e) by (nonlinear_arith)
        requires
            i * s == b * uu - e,
    ;
    lemma_mul_assoc(u, b, uu);
    e
}

/// One component of an element times its stored inverse: four terms whose
/// exact sum is `t` times `UNIT * UNIT` over `s`.
proof fn lemma_component(
    u1: int,
    u2: int,
    u3: int,
    u4: int,
    b1: int,
    b2: int,
    b3: int,
    b4: int,
    i1: int,
    i2: int,
    i3: int,
    i4: int,
    s: int,
    t: int,
)
    requires
        s > 0,
        i1 == trunc_div((b1 * UNIT) * UNIT, s),
        i2 == trunc_div((b2 * UNIT) * UNIT, s),
        i3 == trunc_div((b3 * UNIT) * UNIT, s),
        i4 == trunc_div((b4 * UNIT) * UNIT, s),
        u1 * b1 + u2 * b2 + u3 * b3 + u4 * b4 == t,
        t == s || t == 0,
    ensures
        ({
            let m = u1 * i1 + u2 * i2 + u3 * i3 + u4 * i4;
            let spread = magnitude_of(u1) + magnitude_of(u2) + magnitude_of(u3) + magnitude_of(u4);
            let goal = if t == s { UNIT * UNIT } else { 0 };
            magnitude_of(m - goal) <= spread
        }),
{
    let e1 = lemma_term(u1, b1, i1, s);
    let e2 = lemma_term(u2, b2, i2, s);
    let e3 = lemma_term(u3, b3, i3, s);
    let e4 = lemma_term(u4, b4, i4, s);
    let uu = UNIT * UNIT;
    let m = u1 * i1 + u2 * i2 + u3 * i3 + u4 * i4;
    let spread = magnitude_of(u1) + magnitude_of(u2) + magnitude_of(u3) + magnitude_of(u4);
    let goal: int = if t == s { uu } else { 0 };
    lemma_four_by_one(u1 * b1, u2 * b2, u3 * b3, u4 * b4, uu);
    lemma_four_by_one(u1 * i1, u2 * i2, u3 * i3, u4 * i4, s);
    lemma_four_by_one(
        magnitude_of(u1),
        magnitude_of(u2),
        magnitude_of(u3),
        magnitude_of(u4),
        s,
    );
    assert(s * m == m * s && s * (u1 * i1) == (u1 * i1) * s && s * (u2 * i2) == (u2 * i2) * s && s
        * (u3 * i3) == (u3 * i3) * s && s * (u4 * i4) == (u4 * i4) * s) by (nonlinear_arith);
    let err = u1 * e1 + u2 * e2 + u3 * e3 + u4 * e4;
    assert(s * m == t * uu - err);
    assert(t * uu == s * goal) by (nonlinear_arith)
        requires
            (t == s && goal == uu) || (t == 0 && goal == 0),
    ;
    assert(s * (m - goal) == -err) by (nonlinear_arith)
        requires
            s * m == s * goal - err,
    ;
    assert(magnitude_of(m - goal) <= spread) by (nonlinear_arith)
        requires
            s * (m - goal) == -err,
            -(spread * s) <= err <= spread * s,
            s > 0,
    ;
}

/// A stored numerator of a product over `UNIT * UNIT` is within one unit of
/// the exact quotient.
proof fn lemma_stored_part(m: int, goal: int, spread: int)
    requires
        magnitude_of(m - goal * UNIT) <= spread,
    ensures
        magnitude_of(trunc_div(m * UNIT, UNIT * UNIT) - goal) * UNIT <= UNIT + spread,
{
    lemma_trunc_cancel(m);
    lemma_trunc_div(m, UNIT as int);
}

/// An even element of nonzero magnitude times its stored inverse, as it is
/// stored, is the scalar one within `1 + spread / UNIT` units in each
/// component, where `spread` is the sum of the magnitudes of the element's
/// numerators: about five units for an element of magnitude one.
pub proof fn lemma_inverse_identity_stored_even(a: EvenModel)
    requires
        a.den == UNIT,
        a.norm() != 0,
    ensures
        near_identity(a.mul_even(a.inv().rounded()).rounded(), spread_even(a)),
{
    let i = a.inv().rounded();
    let s = a.norm();
    lemma_square_nonnegative(a.sca);
    lemma_square_nonnegative(a.yz);
    lemma_square_nonnegative(a.zx);
    lemma_square_nonnegative(a.xy);
    lemma_signs(a.yz, a.yz);
    lemma_signs(a.zx, a.zx);
    lemma_signs(a.xy, a.xy);
    lemma_signs(a.yz, i.yz);
    lemma_signs(a.zx, i.zx);
    lemma_signs(a.xy, i.xy);
    lemma_signs(a.zx, i.xy);
    lemma_signs(a.xy, i.yz);
    lemma_signs(a.yz, i.zx);
    lemma_pairs(a.sca, a.yz, a.zx, a.xy);
    lemma_component(
        a.sca, -a.yz, -a.zx, -a.xy,
        a.sca, -a.yz, -a.zx, -a.xy,
        i.sca, i.yz, i.zx, i.xy,
        s, s,
    );
    lemma_component(
        a.yz, a.sca, a.xy, -a.zx,
        a.sca, -a.yz, -a.zx, -a.xy,
        i.sca, i.yz, i.zx, i.xy,
        s, 0,
    );
    lemma_component(
        a.zx, a.sca, a.yz, -a.xy,
        a.sca, -a.zx, -a.xy, -a.yz,
        i.sca, i.zx, i.xy, i.yz,
        s, 0,
    );
    lemma_component(
        a.xy, a.sca, a.zx, -a.yz,
        a.sca, -a.xy, -a.yz, -a.zx,
        i.sca, i.xy, i.yz, i.zx,
        s, 0,
    );
    let m = a.mul_even(i);
    let b = spread_even(a);
    lemma_stored_part(m.sca, UNIT as int, b);
    lemma_stored_part(m.yz, 0, b);
    lemma_stored_part(m.zx, 0, b);
    lemma_stored_part(m.xy, 0, b);
}

/// The products of the numerators of an element with those of its reverse
/// that cancel in the bivector part of the product.
proof fn lemma_pairs(s: int, p: int, q: int, r: int)
    ensures
        p * s + s * (-p) + r * (-q) + (-q) * (-r) == 0,
        q * s + s * (-q) + p * (-r) + (-r) * (-p) == 0,
        r * s + s * (-r) + q * (-p) + (-p) * (-q) == 0,
        s * s + (-p) * (-p) + (-q) * (-q) + (-r) * (-r) == s * s + p * p + q * q + r * r,
{
    assert(p * s + s * (-p) + r * (-q) + (-q) * (-r) == 0 && q * s + s * (-q) + p * (-r) + (-r)
        * (-p) == 0 && r * s + s * (-r) + q * (-p) + (-p) * (-q) == 0 && s * s + (-p) * (-p)
        + (-q) * (-q) + (-r) * (-r) == s * s + p * p + q * q + r * r) by (nonlinear_arith);
}

/// The products of the numerators of an odd element with those of its
/// reverse that cancel in the bivector part of the product.
proof fn lemma_pairs_odd(t: int, x: int, y: int, z: int)
    ensures
        x * (-t) + t * x + y * z + (-z) * y == 0,
        y * (-t) + t * y + z * x + (-x) * z == 0,
        z * (-t) + t * z + x * y + (-y) * x == 0,
        x * x + y * y + z * z + (-t) * (-t) == t * t + x * x + y * y + z * z,
{
    assert(x * (-t) + t * x + y * z + (-z) * y == 0 && y * (-t) + t * y + z * x + (-x) * z == 0
        && z * (-t) + t * z + x * y + (-y) * x == 0 && x * x + y * y + z * z + (-t) * (-t) == t
        * t + x * x + y * y + z * z) by (nonlinear_arith);
}

/// An odd element of nonzero magnitude times its stored inverse, as it is
/// stored, is the scalar one within `1 + spread / UNIT` units in each
/// component, where `spread` is the sum of the magnitudes of the element's
/// numerators.
pub proof fn lemma_inverse_identity_stored_odd(a: OddModel)
    requires
        a.den == UNIT,
        a.norm() != 0,
    ensures
        near_identity(a.mul_odd(a.inv().rounded()).rounded(), spread_odd(a)),
{
    let i = a.inv().rounded();
    let s = a.norm();
    lemma_square_nonnegative(a.xyz);
    lemma_square_nonnegative(a.x);
    lemma_square_nonnegative(a.y);
    lemma_square_nonnegative(a.z);
    lemma_signs(a.xyz, i.xyz);
    lemma_signs(a.z, i.y);
    lemma_signs(a.x, i.z);
    lemma_signs(a.y, i.x);
    lemma_pairs_odd(a.xyz, a.x, a.y, a.z);
    lemma_component(
        a.x, a.y, a.z, -a.xyz,
        a.x, a.y, a.z, -a.xyz,
        i.x, i.y, i.z, i.xyz,
        s, s,
    );
    lemma_component(
        a.x, a.xyz, a.y, -a.z,
        -a.xyz, a.x, a.z, a.y,
        i.xyz, i.x, i.z, i.y,
        s, 0,
    );
    lemma_component(
        a.y, a.xyz, a.z, -a.x,
        -a.xyz, a.y, a.x, a.z,
        i.xyz, i.y, i.x, i.z,
        s, 0,
    );
    lemma_component(
        a.z, a.xyz, a.x, -a.y,
        -a.xyz, a.z, a.y, a.x,
        i.xyz, i.z, i.y, i.x,
        s, 0,
    );
    let m = a.mul_odd(i);
    let b = spread_odd(a);
    lemma_stored_part(m.sca, UNIT as int, b);
    lemma_stored_part(m.yz, 0, b);
    lemma_stored_part(m.zx, 0, b);
    lemma_stored_part(m.xy, 0, b);
}

} // verus!
