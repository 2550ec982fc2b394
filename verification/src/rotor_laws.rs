//! What holds of the rotor built from two vectors.

use vstd::prelude::*;
use crate::error::VersorError;
use crate::exact::{
    in_range, lemma_square_nonnegative, lemma_trunc_cancel, trunc_div, unit_part, UNIT,
};
use crate::identities::{
    lemma_four_by_one, lemma_scaled_squares, lemma_signs, lemma_small_square,
    lemma_square_of_product, lemma_zero,
};
use crate::laws::{lemma_norm_nonnegative_even, lemma_norm_odd_odd};
use crate::model::{EvenModel, OddModel, RatioModel};
use crate::normalize_laws::{lemma_normalize_even, lemma_normalize_odd, lemma_unit_part_encloses};
use crate::rotor::{on_unit_circle, opposed, rotor_from_bivector_angle, rotor_from_vectors};
use crate::round_trip::lemma_scalar_and_even;
use crate::rounding::{
    lemma_square_order, lemma_trunc_div, lemma_trunc_magnitude, magnitude_of, slack,
};
use crate::versor::near_one_product;

verus! {

/// The parts of the products of `a` with the negated multiple `-(m * b)`.
proof fn lemma_opposed_parts(a: int, b: int, m: int)
    ensures
        a * (-(m * b)) == -(m * (a * b)),
        b * (-(m * a)) == -(m * (a * b)),
        a * (-(m * a)) == -(m * (a * a)),
{
    assert(a * (-(m * b)) == -(m * (a * b)) && b * (-(m * a)) == -(m * (a * b)) && a * (-(m * a))
        == -(m * (a * a))) by (nonlinear_arith);
}

/// Vectors in opposite directions have no rotor between them, whatever
/// their lengths: for `b` equal to `a` times a negative number the
/// construction is degenerate.
pub proof fn lemma_antipodal(a: OddModel, b: OddModel, m: int)
    requires
        m > 0,
        b.x == -(m * a.x),
        b.y == -(m * a.y),
        b.z == -(m * a.z),
    ensures
        rotor_from_vectors(a, b) == Err::<EvenModel, VersorError>(VersorError::DegenerateVersor),
{
    lemma_opposed_parts(a.x, a.y, m);
    lemma_opposed_parts(a.y, a.z, m);
    lemma_opposed_parts(a.z, a.x, m);
    lemma_square_nonnegative(a.x);
    lemma_square_nonnegative(a.y);
    lemma_square_nonnegative(a.z);
    lemma_signs(0, 0);
    if a.vec().norm() != 0 {
        let n = a.x * a.x + a.y * a.y + a.z * a.z;
        assert(0int * 0int == 0) by (nonlinear_arith);
        assert(m * (a.x * a.x) + m * (a.y * a.y) + m * (a.z * a.z) == m * n) by (nonlinear_arith)
            requires
                n == a.x * a.x + a.y * a.y + a.z * a.z,
        ;
        assert(m * n > 0) by (nonlinear_arith)
            requires
                m > 0,
                n > 0,
        ;
        assert(opposed(a, b));
    }
}

/// One numerator `p` of an exact product and what is stored of it: the
/// stored magnitude `t`, whose square encloses the square of `p` over
/// `UNIT * UNIT`.
proof fn lemma_stored_square(p: int) -> (t: int)
    ensures
        t >= 0,
        t * t == trunc_div(p, UNIT as int) * trunc_div(p, UNIT as int),
        (t * t) * (UNIT * UNIT) <= p * p,
        ((t + 1) * (t + 1)) * (UNIT * UNIT) > p * p,
{
    let r = trunc_div(p, UNIT as int);
    lemma_trunc_div(p, UNIT as int);
    let t = magnitude_of(r);
    let a = magnitude_of(p);
    lemma_signs(r, r);
    lemma_signs(p, p);
    assert(t * UNIT <= a < (t + 1) * UNIT);
    lemma_square_order(t * UNIT, a);
    lemma_square_order(a, (t + 1) * UNIT);
    lemma_square_of_product(t, UNIT as int);
    lemma_square_of_product(t + 1, UNIT as int);
    t
}

/// The sum of the squares of the stored numerators of a product whose exact
/// numerators have the sum of squares `n`, where `n` is the product of two
/// sums of squares that are each `UNIT * UNIT` within `16 * UNIT`.
proof fn lemma_stored_magnitude(p1: int, p2: int, p3: int, p4: int, n1: int, n2: int)
    requires
        p1 * p1 + p2 * p2 + p3 * p3 + p4 * p4 == n1 * n2,
        UNIT * UNIT - 16 * UNIT <= n1 <= UNIT * UNIT + 16 * UNIT,
        UNIT * UNIT - 16 * UNIT <= n2 <= UNIT * UNIT + 16 * UNIT,
    ensures
        ({
            let (r1, r2, r3, r4) = (
                trunc_div(p1, UNIT as int),
                trunc_div(p2, UNIT as int),
                trunc_div(p3, UNIT as int),
                trunc_div(p4, UNIT as int),
            );
            let t = r1 * r1 + r2 * r2 + r3 * r3 + r4 * r4;
            UNIT * UNIT - 64 * UNIT <= t <= UNIT * UNIT + 64 * UNIT
        }),
{
    let u: int = UNIT as int;
    let uu = u * u;
    let t1 = lemma_stored_square(p1);
    let t2 = lemma_stored_square(p2);
    let t3 = lemma_stored_square(p3);
    let t4 = lemma_stored_square(p4);
    let t = t1 * t1 + t2 * t2 + t3 * t3 + t4 * t4;
    let v = (t1 + 1) * (t1 + 1) + (t2 + 1) * (t2 + 1) + (t3 + 1) * (t3 + 1) + (t4 + 1) * (t4 + 1);
    lemma_four_by_one(t1 * t1, t2 * t2, t3 * t3, t4 * t4, uu);
    lemma_four_by_one(
        (t1 + 1) * (t1 + 1),
        (t2 + 1) * (t2 + 1),
        (t3 + 1) * (t3 + 1),
        (t4 + 1) * (t4 + 1),
        uu,
    );
    let n = n1 * n2;
    let hi = (u + 16) * (u + 16);
    let lo = (u - 16) * (u - 16);
    assert(lo * uu <= n <= hi * uu) by (nonlinear_arith)
        requires
            n == n1 * n2,
            (u - 16) * u <= n1 <= (u + 16) * u,
            (u - 16) * u <= n2 <= (u + 16) * u,
            u > 16,
            uu == u * u,
            hi == (u + 16) * (u + 16),
            lo == (u - 16) * (u - 16),
    ;
    assert(t <= hi && v > lo) by (nonlinear_arith)
        requires
            t * uu <= n,
            v * uu > n,
            lo * uu <= n <= hi * uu,
            uu > 0,
    ;
    assert(t1 * t1 >= 0 && t2 * t2 >= 0 && t3 * t3 >= 0 && t4 * t4 >= 0) by (nonlinear_arith);
    assert(hi == uu + 32 * u + 256 && lo == uu - 32 * u + 256 && hi < (u + 17) * (u + 17))
        by (nonlinear_arith)
        requires
            uu == u * u,
            hi == (u + 16) * (u + 16),
            lo == (u - 16) * (u - 16),
            u > 0,
    ;
    lemma_small_square(t1, u + 17);
    lemma_small_square(t2, u + 17);
    lemma_small_square(t3, u + 17);
    lemma_small_square(t4, u + 17);
    assert(v == t + 2 * (t1 + t2 + t3 + t4) + 4) by (nonlinear_arith)
        requires
            t == t1 * t1 + t2 * t2 + t3 * t3 + t4 * t4,
            v == (t1 + 1) * (t1 + 1) + (t2 + 1) * (t2 + 1) + (t3 + 1) * (t3 + 1) + (t4 + 1) * (t4
                + 1),
    ;
}

/// The rotor between two vectors has magnitude one within `4 / TOLERANCE`:
/// it is the stored product of two unit vectors.
pub proof fn lemma_rotor_magnitude(a: OddModel, b: OddModel)
    ensures
        rotor_from_vectors(a, b) matches Ok(r) ==> near_one_product(r.mag2()),
{
    if rotor_from_vectors(a, b) is Ok {
        let ua = a.vec().normalize();
        let sum = ua.add(b.vec().normalize());
        let mid = sum.normalize();
        lemma_normalize_odd(a.vec());
        lemma_normalize_odd(sum);
        lemma_norm_odd_odd(ua, mid);
        let p = ua.mul_odd(mid);
        lemma_trunc_cancel(p.sca);
        lemma_trunc_cancel(p.yz);
        lemma_trunc_cancel(p.zx);
        lemma_trunc_cancel(p.xy);
        lemma_stored_magnitude(p.sca, p.yz, p.zx, p.xy, ua.norm(), mid.norm());
    }
}

/// The product of two numbers of magnitude at most `UNIT`.
proof fn lemma_unit_product(a: int, b: int)
    requires
        -(UNIT as int) <= a <= UNIT,
        -(UNIT as int) <= b <= UNIT,
    ensures
        -(UNIT * UNIT) <= a * b <= UNIT * UNIT,
{
    let u: int = UNIT as int;
    assert(-(u * u) <= a * b <= u * u) by (nonlinear_arith)
        requires
            -u <= a <= u,
            -u <= b <= u,
    ;
}

/// What is stored of a sum of four products of numbers of magnitude at most
/// `UNIT` fits a component.
proof fn lemma_stored_fits(p: int)
    requires
        -(4 * (UNIT * UNIT)) <= p <= 4 * (UNIT * UNIT),
    ensures
        in_range(trunc_div(p * UNIT, UNIT * UNIT)),
{
    lemma_trunc_cancel(p);
    lemma_trunc_div(p, UNIT as int);
    let t = trunc_div(p, UNIT as int);
    let u: int = UNIT as int;
    assert(-(5 * u) <= t <= 5 * u) by (nonlinear_arith)
        requires
            -u < p - t * u < u,
            -(4 * (u * u)) <= p <= 4 * (u * u),
            u > 0,
    ;
}

/// The rotor between two vectors always fits: the construction ends in a
/// rotor or in the degenerate error, never in an overflow.
pub proof fn lemma_rotor_fits(a: OddModel, b: OddModel)
    ensures
        rotor_from_vectors(a, b) is Ok || rotor_from_vectors(a, b) == Err::<
            EvenModel,
            VersorError,
        >(VersorError::DegenerateVersor),
{
    if !(a.vec().norm() == 0 || b.vec().norm() == 0 || opposed(a, b)) {
        let ua = a.vec().normalize();
        let ub = b.vec().normalize();
        lemma_normalize_odd(a.vec());
        lemma_normalize_odd(b.vec());
        let sum = ua.add(ub);
        assert(sum.bounded());
        if sum.norm() != 0 {
            let mid = sum.normalize();
            lemma_normalize_odd(sum);
            let p = ua.mul_odd(mid);
            lemma_unit_product(ua.x, mid.x);
            lemma_unit_product(ua.y, mid.y);
            lemma_unit_product(ua.z, mid.z);
            lemma_unit_product(ua.xyz, mid.xyz);
            lemma_unit_product(ua.x, mid.xyz);
            lemma_unit_product(ua.xyz, mid.x);
            lemma_unit_product(ua.y, mid.z);
            lemma_unit_product(ua.z, mid.y);
            lemma_unit_product(ua.y, mid.xyz);
            lemma_unit_product(ua.xyz, mid.y);
            lemma_unit_product(ua.z, mid.x);
            lemma_unit_product(ua.x, mid.z);
            lemma_unit_product(ua.z, mid.xyz);
            lemma_unit_product(ua.xyz, mid.z);
            lemma_unit_product(ua.x, mid.y);
            lemma_unit_product(ua.y, mid.x);
            lemma_stored_fits(p.sca);
            lemma_stored_fits(p.yz);
            lemma_stored_fits(p.zx);
            lemma_stored_fits(p.xy);
        }
    }
}

/// `r` is the scalar one within `k` units of `1 / UNIT` in each component.
pub open spec fn identity_within(r: EvenModel, k: int) -> bool {
    &&& magnitude_of(r.sca - UNIT) <= k
    &&& magnitude_of(r.yz) <= k
    &&& magnitude_of(r.zx) <= k
    &&& magnitude_of(r.xy) <= k
}

/// A component `c` of a unit vector and the same component `m` of the unit
/// vector along twice that vector differ by at most ten units.
proof fn lemma_same_direction(c: int, n: int)
    requires
        -(UNIT as int) <= c <= UNIT,
        c * c <= n,
        UNIT * UNIT - 16 * UNIT <= n <= UNIT * UNIT + 16 * UNIT,
    ensures
        -10 <= unit_part(c + c, 4 * n) - c <= 10,
{
    let u: int = UNIT as int;
    let m = unit_part(c + c, 4 * n);
    let g = magnitude_of(c);
    let h = magnitude_of(m);
    let lo = 2 * (u - 9);
    let hi = 2 * (u + 8);
    assert((c + c) * (c + c) == 4 * (c * c)) by (nonlinear_arith);
    assert(lo * lo <= 4 * n <= hi * hi) by (nonlinear_arith)
        requires
            lo == 2 * (u - 9),
            hi == 2 * (u + 8),
            u * u - 16 * u <= n <= u * u + 16 * u,
            u > 100,
    ;
    lemma_unit_part_encloses(c + c, 4 * n, lo, hi);
    assert(magnitude_of(c + c) == 2 * g);
    assert(h - g <= 10) by (nonlinear_arith)
        requires
            h * (2 * (u - 9)) <= (2 * g) * u,
            0 <= g <= u,
            h >= 0,
            u > 100,
    ;
    assert(g - h <= 10) by (nonlinear_arith)
        requires
            (2 * g) * u < (h + 1) * (2 * (u + 8)),
            0 <= g <= u,
            h >= 0,
            u > 100,
    ;
}

/// The products that make up the rotor from a unit vector `c` to the unit
/// vector `c + d`, where `d` is small.
proof fn lemma_small_turn(c1: int, c2: int, d1: int, d2: int)
    requires
        -(UNIT as int) <= c1 <= UNIT,
        -(UNIT as int) <= c2 <= UNIT,
        -10 <= d1 <= 10,
        -10 <= d2 <= 10,
    ensures
        c1 * (c1 + d1) == c1 * c1 + c1 * d1,
        -10 * UNIT <= c1 * d1 <= 10 * UNIT,
        -20 * UNIT <= c1 * (c2 + d2) - c2 * (c1 + d1) <= 20 * UNIT,
{
    let u: int = UNIT as int;
    assert(c1 * (c1 + d1) == c1 * c1 + c1 * d1 && -10 * u <= c1 * d1 <= 10 * u) by (nonlinear_arith)
        requires
            -u <= c1 <= u,
            -10 <= d1 <= 10,
    ;
    assert(c1 * (c2 + d2) - c2 * (c1 + d1) == c1 * d2 - c2 * d1) by (nonlinear_arith);
    assert(-10 * u <= c1 * d2 <= 10 * u && -10 * u <= c2 * d1 <= 10 * u) by (nonlinear_arith)
        requires
            -u <= c1 <= u,
            -u <= c2 <= u,
            -10 <= d1 <= 10,
            -10 <= d2 <= 10,
    ;
}

/// What is stored of a numerator `p` that is `goal * UNIT` within
/// `k * UNIT` is `goal` within `k + 1`.
proof fn lemma_stored_near(p: int, goal: int, k: int)
    requires
        -(k * UNIT) <= p - goal * UNIT <= k * UNIT,
    ensures
        magnitude_of(trunc_div(p * UNIT, UNIT * UNIT) - goal) <= k + 1,
{
    lemma_trunc_cancel(p);
    lemma_trunc_div(p, UNIT as int);
}

/// The rotor from a vector to itself is the scalar one within 64 units of
/// `1 / UNIT` in each component, which is less than `4e-12`.
pub proof fn lemma_identity_rotor(a: OddModel)
    ensures
        rotor_from_vectors(a, a) matches Ok(r) ==> identity_within(r, 64),
{
    if rotor_from_vectors(a, a) is Ok {
        let va = a.vec();
        let ua = va.normalize();
        let sum = ua.add(ua);
        let mid = sum.normalize();
        let p = ua.mul_odd(mid);
        let n = ua.norm();
        lemma_normalize_odd(va);
        lemma_square_nonnegative(ua.xyz);
        lemma_square_nonnegative(ua.x);
        lemma_square_nonnegative(ua.y);
        lemma_square_nonnegative(ua.z);
        // The trivector part of a unit vector is zero.
        lemma_zero(0);
        lemma_square_nonnegative(va.x);
        lemma_square_nonnegative(va.y);
        lemma_square_nonnegative(va.z);
        let s = va.norm();
        assert(s <= s * s) by (nonlinear_arith)
            requires
                s >= 1,
        ;
        lemma_unit_part_encloses(0, s, 1, s);
        assert(ua.xyz == 0);
        assert(n == ua.x * ua.x + ua.y * ua.y + ua.z * ua.z);
        // So is that of the unit vector halfway, and its other parts are
        // those of the unit vector within ten units.
        assert(sum.norm() == 4 * n) by (nonlinear_arith)
            requires
                sum.xyz == 0,
                sum.x == ua.x + ua.x,
                sum.y == ua.y + ua.y,
                sum.z == ua.z + ua.z,
                sum.norm() == sum.xyz * sum.xyz + sum.x * sum.x + sum.y * sum.y + sum.z * sum.z,
                n == ua.x * ua.x + ua.y * ua.y + ua.z * ua.z,
        ;
        lemma_same_direction(ua.xyz, n);
        lemma_same_direction(ua.x, n);
        lemma_same_direction(ua.y, n);
        lemma_same_direction(ua.z, n);
        let (d0, d1, d2, d3) = (mid.xyz, mid.x - ua.x, mid.y - ua.y, mid.z - ua.z);
        let spread = 4 * n;
        assert(4 * n <= (4 * n) * (4 * n)) by (nonlinear_arith)
            requires
                n >= 1,
        ;
        lemma_unit_part_encloses(0, 4 * n, 1, 4 * n);
        assert(mid.xyz == 0);
        lemma_zero(ua.x);
        lemma_zero(ua.y);
        lemma_zero(ua.z);
        lemma_zero(mid.x);
        lemma_zero(mid.y);
        lemma_zero(mid.z);
        lemma_small_turn(ua.x, ua.y, d1, d2);
        lemma_small_turn(ua.y, ua.z, d2, d3);
        lemma_small_turn(ua.z, ua.x, d3, d1);
        assert(mid.x == ua.x + d1 && mid.y == ua.y + d2 && mid.z == ua.z + d3);
        assert(-(46 * UNIT) <= p.sca - UNIT * UNIT <= 46 * UNIT);
        assert(-(20 * UNIT) <= p.yz <= 20 * UNIT);
        assert(-(20 * UNIT) <= p.zx <= 20 * UNIT);
        assert(-(20 * UNIT) <= p.xy <= 20 * UNIT);
        lemma_stored_near(p.sca, UNIT as int, 46);
        lemma_stored_near(p.yz, 0, 20);
        lemma_stored_near(p.zx, 0, 20);
        lemma_stored_near(p.xy, 0, 20);
    }
}

/// The arithmetic of the magnitude of `cos + unit * sin`: `t` is the sum of
/// the squares of the stored product `unit * sin` and `e` its slack, `n`
/// the sum of the squares of `unit`, `cc` and `ss` the squares of the
/// stored cosine and sine.
proof fn lemma_angle_bounds(t: int, e: int, n: int, cc: int, ss: int, u: int)
    requires
        u > 100,
        cc >= 0,
        ss >= 0,
        t >= 0,
        t * (u * u) <= n * ss < (t + e) * (u * u),
        u * u - 16 * u <= n <= u * u + 16 * u,
        u * u - 16 * u <= cc + ss <= u * u + 16 * u,
    ensures
        t <= ss + 16 * u + 256,
        t + e > ss - 16 * u - 256,
{
    let uu = u * u;
    let k = 16 * u;
    assert(uu > 0) by (nonlinear_arith)
        requires
            uu == u * u,
            u > 100,
    ;
    assert(n * ss <= uu * ss + k * (uu + k) && n * ss >= uu * ss - k * (uu + k))
        by (nonlinear_arith)
        requires
            uu - k <= n <= uu + k,
            0 <= ss <= uu + k,
            k >= 0,
    ;
    assert(k * (uu + k) == (16 * u + 256) * uu) by (nonlinear_arith)
        requires
            k == 16 * u,
            uu == u * u,
    ;
    assert(t <= ss + 16 * u + 256) by (nonlinear_arith)
        requires
            t * uu <= uu * ss + (16 * u + 256) * uu,
            uu > 0,
    ;
    assert(t + e > ss - 16 * u - 256) by (nonlinear_arith)
        requires
            (t + e) * uu > uu * ss - (16 * u + 256) * uu,
            uu > 0,
    ;
}

/// A rotor built from a cosine and a sine whose squares sum to one has
/// magnitude one within `4 / TOLERANCE`, whatever the size of the plane.
pub proof fn lemma_angle_rotor_magnitude(
    plane: EvenModel,
    cos_half: RatioModel,
    sin_half: RatioModel,
)
    requires
        cos_half.valid(),
        sin_half.valid(),
        on_unit_circle(cos_half, sin_half),
    ensures
        rotor_from_bivector_angle(plane, cos_half, sin_half) matches Ok(r) ==> near_one_product(
            r.mag2(),
        ),
{
    if rotor_from_bivector_angle(plane, cos_half, sin_half) is Ok {
        let b = plane.bivec();
        let unit = b.normalize();
        let sine = EvenModel::from_sca(sin_half).rounded();
        let cosine = EvenModel::from_sca(cos_half).rounded();
        let exact = unit.mul_even(sine);
        let turned = exact.rounded();
        let r = cosine.add(turned);
        let u: int = UNIT as int;
        lemma_normalize_even(b);
        lemma_norm_nonnegative_even(b);
        // The scalar part of the unit plane is zero.
        let s = b.norm();
        lemma_zero(0);
        assert(s <= s * s) by (nonlinear_arith)
            requires
                s >= 1,
        ;
        lemma_unit_part_encloses(0, s, 1, s);
        assert(unit.sca == 0);
        // unit * sin, exactly and as stored.
        lemma_trunc_div(sin_half.num * UNIT, sin_half.den);
        assert(sine.yz == 0 && sine.zx == 0 && sine.xy == 0) by {
            lemma_zero(UNIT as int);
            lemma_trunc_div(0, sin_half.den);
            lemma_trunc_div(0, cos_half.den);
        }
        assert(cosine.yz == 0 && cosine.zx == 0 && cosine.xy == 0) by {
            lemma_zero(UNIT as int);
            lemma_trunc_div(0, cos_half.den);
        }
        lemma_scalar_and_even(sine, unit);
        lemma_scaled_squares(unit.sca, unit.yz, unit.zx, unit.xy, sine.sca);
        lemma_zero(sine.sca);
        lemma_trunc_cancel(exact.sca);
        lemma_trunc_cancel(exact.yz);
        lemma_trunc_cancel(exact.zx);
        lemma_trunc_cancel(exact.xy);
        lemma_trunc_div(0, u);
        assert(turned.sca == 0);
        lemma_trunc_magnitude(exact.sca, exact.yz, exact.zx, exact.xy, u);
        let t = turned.norm();
        let e = slack(turned.sca, turned.yz, turned.zx, turned.xy);
        let cc = cosine.sca * cosine.sca;
        let ss = sine.sca * sine.sca;
        lemma_square_nonnegative(cosine.sca);
        lemma_square_nonnegative(sine.sca);
        lemma_angle_bounds(t, e, unit.norm(), cc, ss, u);
        // No stored part of the product exceeds UNIT + 16.
        lemma_square_nonnegative(turned.yz);
        lemma_square_nonnegative(turned.zx);
        lemma_square_nonnegative(turned.xy);
        let top = (u + 17) * (u + 17);
        assert(u * u + 32 * u + 256 < top) by (nonlinear_arith)
            requires
                top == (u + 17) * (u + 17),
                u > 0,
        ;
        lemma_signs(turned.yz, turned.yz);
        lemma_signs(turned.zx, turned.zx);
        lemma_signs(turned.xy, turned.xy);
        lemma_small_square(magnitude_of(turned.yz), u + 17);
        lemma_small_square(magnitude_of(turned.zx), u + 17);
        lemma_small_square(magnitude_of(turned.xy), u + 17);
        assert(r.norm() == cc + t) by {
            assert(r.sca == cosine.sca && r.yz == turned.yz && r.zx == turned.zx && r.xy
                == turned.xy);
            lemma_zero(0);
        }
    }
}

} // verus!
