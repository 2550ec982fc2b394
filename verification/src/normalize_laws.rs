//! A normalised element has magnitude one, within the tolerance.

use vstd::prelude::*;
use vstd::arithmetic::div_mod::lemma_fundamental_div_mod;
use crate::exact::{
    isqrt, lemma_isqrt, lemma_root_at_least, lemma_shifted, lemma_shifted_adds,
    lemma_square_nonnegative, lemma_unit, lift, lifted_root, shifted, unit_part, PLACES, TOP,
    UNIT,
};
use crate::identities::{lemma_four_by_one, lemma_signs, lemma_square_of_product};
use crate::model::{EvenModel, OddModel};
use crate::rounding::{lemma_square_order, magnitude_of};
use crate::versor::near_one;

verus! {

/// Doubling 126 times gives `TOP`.
proof fn lemma_top()
    ensures
        shifted(1, 126) == TOP,
        0x8000_0000_0000_0000 * 0x8000_0000_0000_0000 == TOP,
{
    lemma_unit(1);
    lemma_unit(UNIT as int);
    lemma_shifted_adds(1, 44, 44);
    lemma_shifted_adds(1, 88, 38);
    lemma_shifted(shifted(1, 88), 38);
    assert(shifted(1, 38) == 0x40_0000_0000) by {
        reveal_with_fuel(shifted, 39);
    }
    assert((UNIT * UNIT) * 0x40_0000_0000 == TOP) by (nonlinear_arith);
    assert(0x8000_0000_0000_0000int * 0x8000_0000_0000_0000int == TOP) by (nonlinear_arith);
}

/// A positive sum of squares that could reach `TOP` in the steps left does
/// reach it.
proof fn lemma_lift_reaches(s: int, left: nat)
    requires
        s >= 1,
        s * shifted(1, 2 * left) >= TOP,
    ensures
        shifted(s, 2 * lift(s, left)) >= TOP,
    decreases left,
{
    if left == 0 {
        assert(s * 1 == s) by (nonlinear_arith);
    } else if s >= TOP {
    } else {
        let p = shifted(1, (2 * left - 2) as nat);
        assert(shifted(1, 2 * left) == 4 * p) by {
            reveal_with_fuel(shifted, 3);
        }
        assert((4 * s) * p == s * (4 * p)) by (nonlinear_arith);
        assert(2 * ((left - 1) as nat) == (2 * left - 2) as nat);
        lemma_lift_reaches(4 * s, (left - 1) as nat);
        let l = lift(4 * s, (left - 1) as nat);
        lemma_shifted_adds(s, 2, 2 * l);
        assert(shifted(s, 2) == 4 * s) by {
            reveal_with_fuel(shifted, 3);
        }
        assert(2 * lift(s, left) == 2 + 2 * l);
    }
}

/// What holds of one component `n` of an element with the sum of squares
/// `s`, where `q` is the factor that lifts `s` and `r` the root of what was
/// lifted: the component of the unit element is at most `UNIT` in
/// magnitude, and its square times `r * r` encloses the square of `n`
/// times `UNIT * q`.
proof fn lemma_part(n: int, s: int, q: int, r: int) -> (c: int)
    requires
        s > 0,
        n * n <= s,
        q == shifted(1, lift(s, 63)),
        r == lifted_root(s),
        r > 0,
        r * r <= s * (q * q) < (r + 1) * (r + 1),
    ensures
        0 <= c <= UNIT,
        c == magnitude_of(unit_part(n, s)),
        n >= 0 ==> unit_part(n, s) >= 0,
        n <= 0 ==> unit_part(n, s) <= 0,
        c * r <= (magnitude_of(n) * q) * UNIT < (c + 1) * r,
        c * c == unit_part(n, s) * unit_part(n, s),
        -(UNIT as int) <= unit_part(n, s) <= UNIT,
        (c * c) * (r * r) <= (n * n) * ((UNIT * q) * (UNIT * q)),
        ((c + 1) * (c + 1)) * (r * r) > (n * n) * ((UNIT * q) * (UNIT * q)),
{
    let k = lift(s, 63);
    let a: int = if n >= 0 { n } else { -n };
    let w: int = UNIT * q;
    lemma_shifted(1, k);
    lemma_signs(n, n);
    assert(a * a == n * n);
    // The numerator of the quotient is a * w.
    lemma_shifted_adds(a, PLACES as nat, k);
    lemma_unit(a);
    lemma_shifted(a * UNIT, k);
    assert((a * UNIT) * q == a * w) by (nonlinear_arith)
        requires
            w == UNIT * q,
    ;
    let top = shifted(a, PLACES as nat + k);
    assert(top == a * w);
    lemma_shifted(n, PLACES as nat + k);
    lemma_shifted(a, PLACES as nat + k);
    let p = shifted(1, PLACES as nat + k);
    assert((n >= 0 ==> n * p >= 0) && (n < 0 ==> n * p < 0) && (-n) * p == -(n * p))
        by (nonlinear_arith)
        requires
            p > 0,
    ;
    let c = top / r;
    assert(unit_part(n, s) == c || unit_part(n, s) == -c);
    assert(n >= 0 ==> unit_part(n, s) == c);
    assert(n < 0 ==> unit_part(n, s) == -c);
    assert(a * w == (a * q) * UNIT) by (nonlinear_arith)
        requires
            w == UNIT * q,
    ;
    lemma_signs(c, c);
    lemma_fundamental_div_mod(top, r);
    assert(r * c == c * r) by (nonlinear_arith);
    assert(c * r <= a * w < (c + 1) * r) by (nonlinear_arith)
        requires
            a * w == c * r + top % r,
            0 <= top % r < r,
    ;
    assert(a * w >= 0 && w > 0) by (nonlinear_arith)
        requires
            a >= 0,
            q > 0,
            w == UNIT * q,
    ;
    assert(c >= 0) by (nonlinear_arith)
        requires
            (c + 1) * r > 0,
            r > 0,
    ;
    // a * q is at most r, so the quotient is at most UNIT.
    lemma_square_of_product(a, q);
    assert((a * a) * (q * q) <= s * (q * q)) by (nonlinear_arith)
        requires
            a * a <= s,
    ;
    assert(a * q >= 0) by (nonlinear_arith)
        requires
            a >= 0,
            q > 0,
    ;
    if a * q > r {
        lemma_square_order(r + 1, a * q);
    }
    assert(a * w <= r * UNIT) by (nonlinear_arith)
        requires
            a * q <= r,
            w == UNIT * q,
    ;
    assert(c <= UNIT) by (nonlinear_arith)
        requires
            c * r <= r * UNIT,
            r > 0,
    ;
    // The squares keep the order.
    lemma_square_order(c * r, a * w);
    lemma_square_order(a * w, (c + 1) * r);
    lemma_square_of_product(c, r);
    lemma_square_of_product(c + 1, r);
    lemma_square_of_product(a, w);
    c
}

/// The arithmetic of the magnitude: `t` is the sum of the four squares
/// `c * c`, `v` the sum of the four squares `(c + 1) * (c + 1)`.
proof fn lemma_enclosed(t: int, v: int, l: int, r: int, u: int)
    requires
        t * (r * r) <= l * (u * u),
        v * (r * r) > l * (u * u),
        r * r <= l < (r + 1) * (r + 1),
        0 < u <= r,
        0 <= t,
    ensures
        t <= u * u + 8 * u,
        v > u * u,
{
    let rr = r * r;
    let uu = u * u;
    assert(rr > 0 && uu > 0) by (nonlinear_arith)
        requires
            rr == r * r,
            uu == u * u,
            0 < u <= r,
    ;
    assert(l * uu >= rr * uu) by (nonlinear_arith)
        requires
            l >= rr,
            uu > 0,
    ;
    assert(v > uu) by (nonlinear_arith)
        requires
            v * rr > rr * uu,
            rr > 0,
    ;
    if t > uu + 8 * u {
        assert(l * uu <= (rr + 2 * r) * uu) by (nonlinear_arith)
            requires
                l < (r + 1) * (r + 1),
                rr == r * r,
                uu > 0,
        ;
        assert(t * rr >= (uu + 8 * u + 1) * rr) by (nonlinear_arith)
            requires
                t >= uu + 8 * u + 1,
                rr > 0,
        ;
        assert((uu + 8 * u + 1) * rr > (rr + 2 * r) * uu) by (nonlinear_arith)
            requires
                rr == r * r,
                uu == u * u,
                0 < u <= r,
        ;
    }
}

/// The factor that lifts a positive sum of squares `s` and the root of what
/// was lifted.
proof fn lemma_root_setup(s: int) -> (r: (int, int))
    requires
        s > 0,
    ensures
        r.0 == shifted(1, lift(s, 63)),
        r.0 > 0,
        r.1 == lifted_root(s),
        r.1 >= 0x8000_0000_0000_0000,
        r.1 * r.1 <= s * (r.0 * r.0) < (r.1 + 1) * (r.1 + 1),
{
    let k = lift(s, 63);
    let q = shifted(1, k);
    let l = shifted(s, 2 * k);
    lemma_top();
    assert(s * shifted(1, 126) >= TOP) by (nonlinear_arith)
        requires
            s >= 1,
            shifted(1, 126) == TOP,
    ;
    lemma_lift_reaches(s, 63);
    lemma_shifted(s, 2 * k);
    lemma_shifted_adds(1, k, k);
    lemma_shifted(q, k);
    lemma_shifted(1, k);
    assert(l == s * (q * q));
    lemma_isqrt(l);
    lemma_root_at_least(l, 0x8000_0000_0000_0000);
    (q, isqrt(l))
}

/// One component of a unit element is the exact quotient within one unit:
/// for any whole numbers `lo` and `hi` that enclose the square root of the
/// sum of squares `s`, the magnitude `c` of the component of `n` has
/// `c * lo <= |n| * UNIT < (c + 1) * hi`. Sign and zero are those of `n`.
pub proof fn lemma_unit_part_encloses(n: int, s: int, lo: int, hi: int)
    requires
        s > 0,
        n * n <= s,
        0 < lo,
        lo * lo <= s <= hi * hi,
        0 < hi,
    ensures
        n >= 0 ==> unit_part(n, s) >= 0,
        n <= 0 ==> unit_part(n, s) <= 0,
        magnitude_of(unit_part(n, s)) <= UNIT,
        magnitude_of(unit_part(n, s)) * lo <= magnitude_of(n) * UNIT,
        magnitude_of(n) * UNIT < (magnitude_of(unit_part(n, s)) + 1) * hi,
{
    let (q, r) = lemma_root_setup(s);
    let c = lemma_part(n, s, q, r);
    let g = magnitude_of(n);
    // lo * q <= r <= hi * q.
    lemma_square_of_product(lo, q);
    lemma_square_of_product(hi, q);
    assert((lo * lo) * (q * q) <= s * (q * q) <= (hi * hi) * (q * q)) by (nonlinear_arith)
        requires
            lo * lo <= s <= hi * hi,
    ;
    assert(lo * q > 0 && hi * q > 0) by (nonlinear_arith)
        requires
            lo > 0,
            hi > 0,
            q > 0,
    ;
    if lo * q > r {
        lemma_square_order(r + 1, lo * q);
    }
    if r > hi * q {
        lemma_square_order(hi * q, r);
    }
    assert(c * lo <= g * UNIT) by (nonlinear_arith)
        requires
            c * r <= (g * q) * UNIT,
            lo * q <= r,
            c >= 0,
            q > 0,
    ;
    assert(g * UNIT < (c + 1) * hi) by (nonlinear_arith)
        requires
            (g * q) * UNIT < (c + 1) * r,
            r <= hi * q,
            c >= 0,
            q > 0,
    ;
}

/// The four components of a unit element: each is at most `UNIT` in
/// magnitude, and the sum of their squares is `UNIT * UNIT` within
/// `16 * UNIT`.
proof fn lemma_unit_parts(n1: int, n2: int, n3: int, n4: int)
    requires
        n1 * n1 + n2 * n2 + n3 * n3 + n4 * n4 > 0,
    ensures
        ({
            let s = n1 * n1 + n2 * n2 + n3 * n3 + n4 * n4;
            let (c1, c2, c3, c4) = (
                unit_part(n1, s),
                unit_part(n2, s),
                unit_part(n3, s),
                unit_part(n4, s),
            );
            let t = c1 * c1 + c2 * c2 + c3 * c3 + c4 * c4;
            &&& -(UNIT as int) <= c1 <= UNIT
            &&& -(UNIT as int) <= c2 <= UNIT
            &&& -(UNIT as int) <= c3 <= UNIT
            &&& -(UNIT as int) <= c4 <= UNIT
            &&& UNIT * UNIT - 16 * UNIT <= t <= UNIT * UNIT + 16 * UNIT
        }),
{
    let s = n1 * n1 + n2 * n2 + n3 * n3 + n4 * n4;
    lemma_square_nonnegative(n1);
    lemma_square_nonnegative(n2);
    lemma_square_nonnegative(n3);
    lemma_square_nonnegative(n4);
    let (q, r) = lemma_root_setup(s);
    let l = s * (q * q);
    let a1 = lemma_part(n1, s, q, r);
    let a2 = lemma_part(n2, s, q, r);
    let a3 = lemma_part(n3, s, q, r);
    let a4 = lemma_part(n4, s, q, r);
    let w = UNIT * q;
    let ww = w * w;
    let rr = r * r;
    let t = a1 * a1 + a2 * a2 + a3 * a3 + a4 * a4;
    let v = (a1 + 1) * (a1 + 1) + (a2 + 1) * (a2 + 1) + (a3 + 1) * (a3 + 1) + (a4 + 1) * (a4 + 1);
    lemma_four_by_one(a1 * a1, a2 * a2, a3 * a3, a4 * a4, rr);
    lemma_four_by_one(
        (a1 + 1) * (a1 + 1),
        (a2 + 1) * (a2 + 1),
        (a3 + 1) * (a3 + 1),
        (a4 + 1) * (a4 + 1),
        rr,
    );
    lemma_four_by_one(n1 * n1, n2 * n2, n3 * n3, n4 * n4, ww);
    lemma_square_of_product(UNIT as int, q);
    assert(s * ww == l * (UNIT * UNIT)) by (nonlinear_arith)
        requires
            ww == (UNIT * UNIT) * (q * q),
            l == s * (q * q),
    ;
    lemma_square_nonnegative(a1);
    lemma_square_nonnegative(a2);
    lemma_square_nonnegative(a3);
    lemma_square_nonnegative(a4);
    lemma_enclosed(t, v, l, r, UNIT as int);
    assert(v == t + 2 * (a1 + a2 + a3 + a4) + 4) by (nonlinear_arith)
        requires
            t == a1 * a1 + a2 * a2 + a3 * a3 + a4 * a4,
            v == (a1 + 1) * (a1 + 1) + (a2 + 1) * (a2 + 1) + (a3 + 1) * (a3 + 1) + (a4 + 1) * (a4
                + 1),
    ;
}

/// A normalised even element can always be stored and has magnitude one
/// within the tolerance.
pub proof fn lemma_normalize_even(a: EvenModel)
    requires
        a.norm() != 0,
    ensures
        a.normalize().bounded(),
        near_one(a.normalize().mag2()),
        UNIT * UNIT - 16 * UNIT <= a.normalize().norm() <= UNIT * UNIT + 16 * UNIT,
        -(UNIT as int) <= a.normalize().sca <= UNIT,
        -(UNIT as int) <= a.normalize().yz <= UNIT,
        -(UNIT as int) <= a.normalize().zx <= UNIT,
        -(UNIT as int) <= a.normalize().xy <= UNIT,
{
    lemma_square_nonnegative(a.sca);
    lemma_square_nonnegative(a.yz);
    lemma_square_nonnegative(a.zx);
    lemma_square_nonnegative(a.xy);
    lemma_unit_parts(a.sca, a.yz, a.zx, a.xy);
}

/// A normalised odd element can always be stored and has magnitude one
/// within the tolerance.
pub proof fn lemma_normalize_odd(a: OddModel)
    requires
        a.norm() != 0,
    ensures
        a.normalize().bounded(),
        near_one(a.normalize().mag2()),
        UNIT * UNIT - 16 * UNIT <= a.normalize().norm() <= UNIT * UNIT + 16 * UNIT,
        -(UNIT as int) <= a.normalize().xyz <= UNIT,
        -(UNIT as int) <= a.normalize().x <= UNIT,
        -(UNIT as int) <= a.normalize().y <= UNIT,
        -(UNIT as int) <= a.normalize().z <= UNIT,
{
    lemma_square_nonnegative(a.xyz);
    lemma_square_nonnegative(a.x);
    lemma_square_nonnegative(a.y);
    lemma_square_nonnegative(a.z);
    lemma_unit_parts(a.xyz, a.x, a.y, a.z);
}

} // verus!
