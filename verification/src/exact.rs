//! Integer building blocks: range checks, sums of products held in 128 bits,
//! division after a shift, and the integer square root.

use vstd::prelude::*;
use vstd::arithmetic::div_mod::{
    lemma_div_multiples_vanish_quotient, lemma_fundamental_div_mod,
    lemma_fundamental_div_mod_converse,
};

verus! {

/// Largest magnitude a stored component may have.
pub const LIMIT: i64 = 0x7fff_ffff_ffff_ffff;

/// The denominator of every stored component: two to the power `PLACES`.
pub const UNIT: i64 = 0x1000_0000_0000;

/// The number of binary places a stored component has.
pub const PLACES: u32 = 44;

/// Two to the power 126: a sum of squares is brought up to this before its
/// root is taken, so that the root has 63 significant bits.
pub const TOP: u128 = 0x4000_0000_0000_0000_0000_0000_0000_0000;

/// `a` doubled `n` times.
pub open spec fn shifted(a: int, n: nat) -> int
    decreases n,
{
    if n == 0 {
        a
    } else {
        2 * shifted(a, (n - 1) as nat)
    }
}

/// The quotient rounded towards zero.
pub open spec fn trunc_div(a: int, d: int) -> int {
    if a >= 0 {
        a / d
    } else {
        -((-a) / d)
    }
}

/// Doubling is multiplying: `shifted(a, n)` is `a` times `shifted(1, n)`,
/// which is positive.
pub proof fn lemma_shifted(a: int, n: nat)
    ensures
        shifted(a, n) == a * shifted(1, n),
        shifted(1, n) > 0,
    decreases n,
{
    if n == 0 {
        assert(a * 1 == a) by (nonlinear_arith);
    } else {
        lemma_shifted(a, (n - 1) as nat);
        let p = shifted(1, (n - 1) as nat);
        assert(2 * (a * p) == a * (2 * p)) by (nonlinear_arith);
    }
}

/// Doubling `m` times and then `n` times is doubling `m + n` times.
pub proof fn lemma_shifted_adds(a: int, m: nat, n: nat)
    ensures
        shifted(a, m + n) == shifted(shifted(a, m), n),
    decreases n,
{
    if n > 0 {
        lemma_shifted_adds(a, m, (n - 1) as nat);
        assert((m + n - 1) as nat == m + (n - 1) as nat);
    }
}

/// Doubling `PLACES` times is multiplying by `UNIT`.
pub proof fn lemma_unit(a: int)
    ensures
        shifted(a, PLACES as nat) == a * UNIT,
        shifted(1, PLACES as nat) == UNIT,
{
    lemma_shifted(a, 44);
    assert(shifted(1, 44) == 0x1000_0000_0000) by {
        reveal_with_fuel(shifted, 45);
    }
}

/// A number that holds `q` times `d` has a quotient by `d` of at least `q`.
pub proof fn lemma_quotient_at_least(x: int, q: int, d: int)
    requires
        d > 0,
        x >= q * d,
    ensures
        x / d >= q,
{
    lemma_fundamental_div_mod(x, d);
    let t = x / d;
    if t < q {
        assert(d * t + d <= q * d) by (nonlinear_arith)
            requires
                t + 1 <= q,
                d > 0,
        ;
    }
}

/// `floor(a * 2^bits / d)`, when it fits a component: long division, one
/// binary place at a time.
pub fn shl_div(a: u128, bits: u32, d: u128) -> (r: Option<i64>)
    requires
        d > 0,
    ensures
        r is Some <==> shifted(a as int, bits as nat) / (d as int) <= LIMIT,
        r matches Some(v) ==> v == shifted(a as int, bits as nat) / (d as int),
{
    let mut q: u128 = a / d;
    let mut rem: u128 = a % d;
    let mut i: u32 = 0;
    proof {
        lemma_fundamental_div_mod(a as int, d as int);
        assert(d * q == q * d) by (nonlinear_arith);
    }
    while i < bits && q <= LIMIT as u128
        invariant
            i <= bits,
            d > 0,
            rem < d,
            shifted(a as int, i as nat) == q * d + rem,
        decreases bits - i,
    {
        let back: u128 = d - rem;
        proof {
            assert((2 * q + 1) * d == 2 * (q * d) + d && (2 * q) * d == 2 * (q * d))
                by (nonlinear_arith);
        }
        if rem >= back {
            rem = rem - back;
            q = 2 * q + 1;
        } else {
            rem = rem + rem;
            q = 2 * q;
        }
        i = i + 1;
    }
    if q > LIMIT as u128 {
        proof {
            // What has been found so far only grows in the places left.
            lemma_shifted_adds(a as int, i as nat, (bits - i) as nat);
            lemma_shifted(shifted(a as int, i as nat), (bits - i) as nat);
            let rest = shifted(1, (bits - i) as nat);
            let sofar = shifted(a as int, i as nat);
            assert(sofar * rest >= q * d) by (nonlinear_arith)
                requires
                    sofar >= q * d,
                    q * d >= 0,
                    rest >= 1,
            ;
            lemma_quotient_at_least(shifted(a as int, bits as nat), q as int, d as int);
        }
        None
    } else {
        proof {
            lemma_fundamental_div_mod_converse(
                shifted(a as int, bits as nat),
                d as int,
                q as int,
                rem as int,
            );
        }
        Some(q as i64)
    }
}

/// `x` fits 128 bits and can be negated.
pub open spec fn wide_range(x: int) -> bool {
    -0x7fff_ffff_ffff_ffff_ffff_ffff_ffff_ffff <= x <= 0x7fff_ffff_ffff_ffff_ffff_ffff_ffff_ffff
}

/// `a * 2^bits / d` rounded towards zero, when it fits a component.
pub fn wide_shl_div(a: i128, bits: u32, d: u128) -> (r: Option<i64>)
    requires
        wide_range(a as int),
        d > 0,
    ensures
        r is Some <==> in_range(trunc_div(shifted(a as int, bits as nat), d as int)),
        r matches Some(v) ==> v == trunc_div(shifted(a as int, bits as nat), d as int),
{
    proof {
        lemma_shifted(a as int, bits as nat);
        lemma_shifted(-(a as int), bits as nat);
        let p = shifted(1, bits as nat);
        assert((a >= 0 ==> a * p >= 0) && (a < 0 ==> a * p < 0) && (-a) * p == -(a * p))
            by (nonlinear_arith)
            requires
                p > 0,
        ;
    }
    if a >= 0 {
        shl_div(a as u128, bits, d)
    } else {
        match shl_div((-a) as u128, bits, d) {
            Some(v) => Some(-v),
            None => None,
        }
    }
}

/// How many times a sum of squares is multiplied by four before its root is
/// taken: until it reaches `TOP`, at most `left` times.
pub open spec fn lift(s: int, left: nat) -> nat
    decreases left,
{
    if left == 0 || s >= TOP {
        0
    } else {
        1 + lift(4 * s, (left - 1) as nat)
    }
}

/// The root by which a unit element's numerators are divided: the integer
/// square root of the sum of squares `s` after it was brought up to `TOP`.
pub open spec fn lifted_root(s: int) -> int {
    isqrt(shifted(s, 2 * lift(s, 63)))
}

/// One component of a unit element: `n` divided by the square root of the
/// sum of squares `s`, in units of `1 / UNIT`, rounded towards zero.
pub open spec fn unit_part(n: int, s: int) -> int {
    trunc_div(shifted(n, PLACES as nat + lift(s, 63)), lifted_root(s))
}

/// Brings a sum of squares up to `TOP` by multiplying it by four as often
/// as `lift` says, and says how often.
pub fn lift_up(s: u128) -> (r: (u128, u32))
    requires
        s > 0,
    ensures
        r.1 == lift(s as int, 63),
        r.0 == shifted(s as int, 2 * (r.1 as nat)),
        r.0 > 0,
        r.1 <= 63,
{
    let mut v: u128 = s;
    let mut k: u32 = 0;
    while k < 63 && v < TOP
        invariant
            k <= 63,
            v > 0,
            v == shifted(s as int, 2 * (k as nat)),
            lift(s as int, 63) == k + lift(v as int, (63 - k) as nat),
        decreases 63 - k,
    {
        proof {
            reveal_with_fuel(shifted, 3);
            assert(shifted(s as int, 2 * (k as nat) + 2) == 4 * shifted(s as int, 2 * (k as nat)));
            assert(2 * ((k + 1) as nat) == 2 * (k as nat) + 2);
        }
        v = v * 4;
        k = k + 1;
    }
    (v, k)
}

/// Cancelling `UNIT` before dividing changes nothing.
pub proof fn lemma_trunc_cancel(x: int)
    ensures
        trunc_div(x * UNIT, UNIT * UNIT) == trunc_div(x, UNIT as int),
{
    let u: int = UNIT as int;
    assert((x >= 0 ==> x * u >= 0) && (x < 0 ==> x * u < 0) && (-x) * u == -(x * u) && u * x == x
        * u && u * (-x) == (-x) * u) by (nonlinear_arith)
        requires
            u > 0,
    ;
    if x >= 0 {
        lemma_div_multiples_vanish_quotient(u, x, u);
    } else {
        lemma_div_multiples_vanish_quotient(u, -x, u);
    }
}

/// The quotient of a wide value by `UNIT`, rounded towards zero, when it
/// fits a component.
pub fn scale_down(x: i128) -> (r: Option<i64>)
    requires
        x > -0x7fff_ffff_ffff_ffff_ffff_ffff_ffff_ffff - 1,
    ensures
        r is Some <==> in_range(trunc_div(x as int, UNIT as int)),
        r matches Some(v) ==> v == trunc_div(x as int, UNIT as int),
{
    if x >= 0 {
        narrow(((x as u128) / (UNIT as u128)) as i128)
    } else {
        narrow(-((((-x) as u128) / (UNIT as u128)) as i128))
    }
}

/// The sum of four product-sized terms divided by `UNIT`, rounded towards
/// zero, when that fits a component.
///
/// The full sum may exceed 128 bits; it is formed in two halves so that no
/// partial sum overflows before the range of the whole is known.
pub fn sum4_scaled(a: i128, b: i128, c: i128, d: i128) -> (r: Option<i64>)
    requires
        product_sized(a as int),
        product_sized(b as int),
        product_sized(c as int),
        product_sized(d as int),
    ensures
        r is Some <==> in_range(trunc_div(a + b + c + d, UNIT as int)),
        r matches Some(v) ==> v == trunc_div(a + b + c + d, UNIT as int),
{
    let left: i128 = a + b;
    let right: i128 = c + d;
    match left.checked_add(right) {
        Some(total) => {
            if total == -0x7fff_ffff_ffff_ffff_ffff_ffff_ffff_ffff - 1 {
                None
            } else {
                scale_down(total)
            }
        },
        None => None,
    }
}

/// `x` can be stored as a component: its negation can be stored as well.
pub open spec fn in_range(x: int) -> bool {
    -(LIMIT as int) <= x <= LIMIT as int
}

/// `x` is the product of two storable components, or smaller.
pub open spec fn product_sized(x: int) -> bool {
    -(LIMIT as int) * (LIMIT as int) <= x <= (LIMIT as int) * (LIMIT as int)
}

/// The product of two storable components is product sized.
pub proof fn lemma_product_sized(a: int, b: int)
    requires
        in_range(a),
        in_range(b),
    ensures
        product_sized(a * b),
{
    let m: int = LIMIT as int;
    assert(-m * m <= a * b <= m * m) by (nonlinear_arith)
        requires
            -m <= a <= m,
            -m <= b <= m,
            m >= 0,
    ;
}

/// The exact product of two components, widened so that it cannot overflow.
pub fn wide_mul(a: i64, b: i64) -> (r: i128)
    requires
        in_range(a as int),
        in_range(b as int),
    ensures
        r == a * b,
        product_sized(r as int),
{
    proof {
        lemma_product_sized(a as int, b as int);
    }
    (a as i128) * (b as i128)
}

/// Brings a wide value back to component width when it fits.
pub fn narrow(x: i128) -> (r: Option<i64>)
    ensures
        r is Some <==> in_range(x as int),
        r matches Some(v) ==> v == x,
{
    if -(LIMIT as i128) <= x && x <= LIMIT as i128 {
        Some(x as i64)
    } else {
        None
    }
}

/// A square is not negative.
pub proof fn lemma_square_nonnegative(x: int)
    ensures
        x * x >= 0,
{
    assert(x * x >= 0) by (nonlinear_arith);
}

/// The sum of the squares of four components, which always fits 128 bits
/// without a sign.
pub fn sum_of_squares(a: i64, b: i64, c: i64, d: i64) -> (s: u128)
    requires
        in_range(a as int),
        in_range(b as int),
        in_range(c as int),
        in_range(d as int),
    ensures
        s == a * a + b * b + c * c + d * d,
{
    proof {
        lemma_square_nonnegative(a as int);
        lemma_square_nonnegative(b as int);
        lemma_square_nonnegative(c as int);
        lemma_square_nonnegative(d as int);
    }
    let aa: u128 = wide_mul(a, a) as u128;
    let bb: u128 = wide_mul(b, b) as u128;
    let cc: u128 = wide_mul(c, c) as u128;
    let dd: u128 = wide_mul(d, d) as u128;
    aa + bb + cc + dd
}

/// `r` is the integer square root of `x`: the greatest natural number whose
/// square does not exceed `x`.
pub open spec fn is_root_of(r: int, x: int) -> bool {
    0 <= r && r * r <= x < (r + 1) * (r + 1)
}

/// The integer square root of a natural number.
pub open spec fn isqrt(x: int) -> int {
    choose|r: int| is_root_of(r, x)
}

proof fn lemma_root_exists(x: int)
    requires
        x >= 0,
    ensures
        exists|r: int| is_root_of(r, x),
    decreases x,
{
    if x == 0 {
        assert(is_root_of(0, 0));
    } else {
        lemma_root_exists(x - 1);
        let r: int = isqrt(x - 1);
        if (r + 1) * (r + 1) <= x {
            assert((r + 2) * (r + 2) > (r + 1) * (r + 1)) by (nonlinear_arith)
                requires
                    r >= 0,
            ;
            assert(is_root_of(r + 1, x));
        } else {
            assert(is_root_of(r, x));
        }
    }
}

/// Two integer square roots of one number are equal.
pub proof fn lemma_root_unique(r: int, s: int, x: int)
    requires
        is_root_of(r, x),
        is_root_of(s, x),
    ensures
        r == s,
{
    if r < s {
        assert((r + 1) * (r + 1) <= s * s) by (nonlinear_arith)
            requires
                0 <= r,
                r + 1 <= s,
        ;
    } else if s < r {
        assert((s + 1) * (s + 1) <= r * r) by (nonlinear_arith)
            requires
                0 <= s,
                s + 1 <= r,
        ;
    }
}

/// `isqrt(x)` is the integer square root of every natural number `x`.
pub proof fn lemma_isqrt(x: int)
    requires
        x >= 0,
    ensures
        is_root_of(isqrt(x), x),
{
    lemma_root_exists(x);
}

/// The root of a number that is at least `g * g` is at least `g`.
pub proof fn lemma_root_at_least(x: int, g: int)
    requires
        0 <= g,
        g * g <= x,
    ensures
        isqrt(x) >= g,
{
    lemma_square_nonnegative(g);
    lemma_isqrt(x);
    let r = isqrt(x);
    if r < g {
        assert((r + 1) * (r + 1) <= g * g) by (nonlinear_arith)
            requires
                0 <= r,
                r + 1 <= g,
        ;
    }
}

/// The integer square root, found by bisection.
pub fn int_sqrt(x: u128) -> (r: u64)
    ensures
        is_root_of(r as int, x as int),
        r == isqrt(x as int),
{
    let mut lo: u128 = 0;
    let mut hi: u128 = 0x1_0000_0000_0000_0000;
    assert(lo * lo <= x && x < hi * hi) by (nonlinear_arith)
        requires
            lo == 0,
            hi == 0x1_0000_0000_0000_0000,
            x <= 0xffff_ffff_ffff_ffff_ffff_ffff_ffff_ffff,
    ;
    while hi - lo > 1
        invariant
            lo < hi <= 0x1_0000_0000_0000_0000,
            lo * lo <= x < hi * hi,
        decreases hi - lo,
    {
        let mid: u128 = lo + (hi - lo) / 2;
        assert(mid * mid <= 0xffff_ffff_ffff_ffff * 0xffff_ffff_ffff_ffff) by (nonlinear_arith)
            requires
                0 <= mid <= 0xffff_ffff_ffff_ffff,
        ;
        if mid * mid <= x {
            lo = mid;
        } else {
            hi = mid;
        }
    }
    proof {
        lemma_isqrt(x as int);
        lemma_root_unique(lo as int, isqrt(x as int), x as int);
    }
    lo as u64
}

} // verus!
