//! Polynomial identities over the integers that the laws of the algebra
//! rest on.

use vstd::prelude::*;

verus! {


/// The product of two positive numbers is positive, in either order.
pub proof fn lemma_positive_product(a: int, b: int)
    requires
        a > 0,
        b > 0,
    ensures
        a * b > 0,
        a * b == b * a,
{
    assert(a * b > 0 && a * b == b * a) by (nonlinear_arith)
        requires
            a > 0,
            b > 0,
    ;
}

/// Zero divided by a positive number is zero.
pub proof fn lemma_zero_quotient(d: int)
    requires
        d > 0,
    ensures
        0int / d == 0,
{
    assert(0int / d == 0) by (nonlinear_arith)
        requires
            d > 0,
    ;
}

/// A product with zero is zero.
pub proof fn lemma_zero(x: int)
    ensures
        x * 0 == 0,
        0 * x == 0,
{
    assert(x * 0 == 0 && 0 * x == 0) by (nonlinear_arith);
}

/// Signs move out of a product.
pub proof fn lemma_signs(x: int, y: int)
    ensures
        (-x) * y == -(x * y),
        x * (-y) == -(x * y),
        (-x) * (-y) == x * y,
{
    assert((-x) * y == -(x * y) && x * (-y) == -(x * y) && (-x) * (-y) == x * y)
        by (nonlinear_arith);
}

/// In a product of two products the right-hand factors may change places.
pub proof fn lemma_swap(a: int, b: int, c: int, d: int)
    ensures
        (a * b) * (c * d) == (a * d) * (c * b),
{
    assert((a * b) * (c * d) == (a * d) * (c * b)) by (nonlinear_arith);
}

/// The square of a product is the product of the squares.
pub proof fn lemma_square_of_product(a: int, b: int)
    ensures
        (a * b) * (a * b) == (a * a) * (b * b),
{
    assert((a * b) * (a * b) == (a * a) * (b * b)) by (nonlinear_arith);
}

/// The square of `w - x - y - z`, multiplied out.
pub proof fn lemma_square_one_plus(w: int, x: int, y: int, z: int)
    ensures
        (w - x - y - z) * (w - x - y - z) == w * w + x * x + y * y + z * z - 2 * (w * x) - 2 * (w
            * y) - 2 * (w * z) + 2 * (x * y) + 2 * (x * z) + 2 * (y * z),
{
    assert((w - x - y - z) * (w - x - y - z) == w * w + x * x + y * y + z * z - 2 * (w * x) - 2
        * (w * y) - 2 * (w * z) + 2 * (x * y) + 2 * (x * z) + 2 * (y * z)) by (nonlinear_arith);
}

/// The square of `w + x + y - z`, multiplied out.
pub proof fn lemma_square_one_minus(w: int, x: int, y: int, z: int)
    ensures
        (w + x + y - z) * (w + x + y - z) == w * w + x * x + y * y + z * z + 2 * (w * x) + 2 * (w
            * y) - 2 * (w * z) + 2 * (x * y) - 2 * (x * z) - 2 * (y * z),
{
    assert((w + x + y - z) * (w + x + y - z) == w * w + x * x + y * y + z * z + 2 * (w * x) + 2
        * (w * y) - 2 * (w * z) + 2 * (x * y) - 2 * (x * z) - 2 * (y * z)) by (nonlinear_arith);
}

/// A sum of four times a sum of four, multiplied out.
pub proof fn lemma_four_by_four(
    a1: int,
    a2: int,
    a3: int,
    a4: int,
    b1: int,
    b2: int,
    b3: int,
    b4: int,
)
    ensures
        (a1 + a2 + a3 + a4) * (b1 + b2 + b3 + b4) == a1 * b1 + a1 * b2 + a1 * b3 + a1 * b4 + a2
            * b1 + a2 * b2 + a2 * b3 + a2 * b4 + a3 * b1 + a3 * b2 + a3 * b3 + a3 * b4 + a4 * b1
            + a4 * b2 + a4 * b3 + a4 * b4,
{
    assert((a1 + a2 + a3 + a4) * (b1 + b2 + b3 + b4) == a1 * b1 + a1 * b2 + a1 * b3 + a1 * b4
        + a2 * b1 + a2 * b2 + a2 * b3 + a2 * b4 + a3 * b1 + a3 * b2 + a3 * b3 + a3 * b4 + a4 * b1
        + a4 * b2 + a4 * b3 + a4 * b4) by (nonlinear_arith);
}

/// Euler's four-square identity, in the arrangement of the product of two
/// even elements.
pub proof fn lemma_four_square(
    a1: int,
    a2: int,
    a3: int,
    a4: int,
    b1: int,
    b2: int,
    b3: int,
    b4: int,
)
    ensures
        (a1 * b1 - a2 * b2 - a3 * b3 - a4 * b4) * (a1 * b1 - a2 * b2 - a3 * b3 - a4 * b4) + (a2
            * b1 + a1 * b2 + a4 * b3 - a3 * b4) * (a2 * b1 + a1 * b2 + a4 * b3 - a3 * b4) + (a3
            * b1 + a1 * b3 + a2 * b4 - a4 * b2) * (a3 * b1 + a1 * b3 + a2 * b4 - a4 * b2) + (a4
            * b1 + a1 * b4 + a3 * b2 - a2 * b3) * (a4 * b1 + a1 * b4 + a3 * b2 - a2 * b3) == (a1
            * a1 + a2 * a2 + a3 * a3 + a4 * a4) * (b1 * b1 + b2 * b2 + b3 * b3 + b4 * b4),
{
    // Each square, multiplied out over the sixteen products a_i * b_j.
    lemma_square_one_plus(a1 * b1, a2 * b2, a3 * b3, a4 * b4);
    lemma_square_one_minus(a2 * b1, a1 * b2, a4 * b3, a3 * b4);
    lemma_square_one_minus(a3 * b1, a1 * b3, a2 * b4, a4 * b2);
    lemma_square_one_minus(a4 * b1, a1 * b4, a3 * b2, a2 * b3);
    // The mixed terms cancel in pairs.
    lemma_swap(a1, b1, a2, b2);
    lemma_swap(a1, b1, a3, b3);
    lemma_swap(a1, b1, a4, b4);
    lemma_swap(a2, b2, a3, b3);
    lemma_swap(a2, b2, a4, b4);
    lemma_swap(a3, b3, a4, b4);
    lemma_swap(a2, b1, a4, b3);
    lemma_swap(a2, b1, a3, b4);
    lemma_swap(a1, b2, a4, b3);
    lemma_swap(a1, b2, a3, b4);
    lemma_swap(a3, b1, a4, b2);
    lemma_swap(a1, b3, a2, b4);
    // The squares that remain are the terms of the right-hand side.
    lemma_square_of_product(a1, b1);
    lemma_square_of_product(a1, b2);
    lemma_square_of_product(a1, b3);
    lemma_square_of_product(a1, b4);
    lemma_square_of_product(a2, b1);
    lemma_square_of_product(a2, b2);
    lemma_square_of_product(a2, b3);
    lemma_square_of_product(a2, b4);
    lemma_square_of_product(a3, b1);
    lemma_square_of_product(a3, b2);
    lemma_square_of_product(a3, b3);
    lemma_square_of_product(a3, b4);
    lemma_square_of_product(a4, b1);
    lemma_square_of_product(a4, b2);
    lemma_square_of_product(a4, b3);
    lemma_square_of_product(a4, b4);
    lemma_four_by_four(a1 * a1, a2 * a2, a3 * a3, a4 * a4, b1 * b1, b2 * b2, b3 * b3, b4 * b4);
}

/// Signs move out of the products of one negated factor with four others.
pub proof fn lemma_signs_row(x: int, b1: int, b2: int, b3: int, b4: int)
    ensures
        (-x) * b1 == -(x * b1),
        (-x) * b2 == -(x * b2),
        (-x) * b3 == -(x * b3),
        (-x) * b4 == -(x * b4),
        b1 * (-x) == -(b1 * x),
        b2 * (-x) == -(b2 * x),
        b3 * (-x) == -(b3 * x),
        b4 * (-x) == -(b4 * x),
        (-x) * (-x) == x * x,
{
    lemma_signs(x, b1);
    lemma_signs(x, b2);
    lemma_signs(x, b3);
    lemma_signs(x, b4);
    lemma_signs(b1, x);
    lemma_signs(b2, x);
    lemma_signs(b3, x);
    lemma_signs(b4, x);
    lemma_signs(x, x);
}

/// A number times a multiple of itself or of its negation.
pub proof fn lemma_square_scaled(x: int, d: int)
    ensures
        x * (x * d) == (x * x) * d,
        (x * d) * x == (x * x) * d,
        x * (-x * d) == -((x * x) * d),
        (-x * d) * x == -((x * x) * d),
{
    assert(x * (x * d) == (x * x) * d && (x * d) * x == (x * x) * d && x * (-x * d) == -((x * x)
        * d) && (-x * d) * x == -((x * x) * d)) by (nonlinear_arith);
}

/// A sum of four times one factor, multiplied out.
pub proof fn lemma_four_by_one(a1: int, a2: int, a3: int, a4: int, d: int)
    ensures
        (a1 + a2 + a3 + a4) * d == a1 * d + a2 * d + a3 * d + a4 * d,
{
    assert((a1 + a2 + a3 + a4) * d == a1 * d + a2 * d + a3 * d + a4 * d) by (nonlinear_arith);
}

/// The sum of the squares of four numbers that were each multiplied by `g`.
pub proof fn lemma_scaled_squares(a1: int, a2: int, a3: int, a4: int, g: int)
    ensures
        (a1 * g) * (a1 * g) + (a2 * g) * (a2 * g) + (a3 * g) * (a3 * g) + (a4 * g) * (a4 * g) == (
        a1 * a1 + a2 * a2 + a3 * a3 + a4 * a4) * (g * g),
{
    lemma_square_of_product(a1, g);
    lemma_square_of_product(a2, g);
    lemma_square_of_product(a3, g);
    lemma_square_of_product(a4, g);
    lemma_four_by_one(a1 * a1, a2 * a2, a3 * a3, a4 * a4, g * g);
}

/// A number whose square is below the square of a bound is below the bound
/// in magnitude.
pub proof fn lemma_small_square(x: int, g: int)
    requires
        0 <= g,
        x * x < g * g,
    ensures
        -g < x < g,
{
    if x >= g {
        assert(x * x >= g * g) by (nonlinear_arith)
            requires
                0 <= g <= x,
        ;
    } else if x <= -g {
        assert(x * x >= g * g) by (nonlinear_arith)
            requires
                0 <= g,
                x <= -g,
        ;
    }
}

/// Multiplication of integers is associative.
pub proof fn lemma_mul_assoc(x: int, y: int, z: int)
    ensures
        (x * y) * z == x * (y * z),
{
    assert((x * y) * z == x * (y * z)) by (nonlinear_arith);
}

/// `(w - x - y - z) * c`, multiplied out.
pub proof fn lemma_expand_right_a(w: int, x: int, y: int, z: int, c: int)
    ensures
        (w - x - y - z) * c == w * c - x * c - y * c - z * c,
{
    assert((w - x - y - z) * c == w * c - x * c - y * c - z * c) by (nonlinear_arith);
}

/// `(w + x + y - z) * c`, multiplied out.
pub proof fn lemma_expand_right_b(w: int, x: int, y: int, z: int, c: int)
    ensures
        (w + x + y - z) * c == w * c + x * c + y * c - z * c,
{
    assert((w + x + y - z) * c == w * c + x * c + y * c - z * c) by (nonlinear_arith);
}

/// `a * (w - x - y - z)`, multiplied out.
pub proof fn lemma_expand_left_a(a: int, w: int, x: int, y: int, z: int)
    ensures
        a * (w - x - y - z) == a * w - a * x - a * y - a * z,
{
    assert(a * (w - x - y - z) == a * w - a * x - a * y - a * z) by (nonlinear_arith);
}

/// `a * (w + x + y - z)`, multiplied out.
pub proof fn lemma_expand_left_b(a: int, w: int, x: int, y: int, z: int)
    ensures
        a * (w + x + y - z) == a * w + a * x + a * y - a * z,
{
    assert(a * (w + x + y - z) == a * w + a * x + a * y - a * z) by (nonlinear_arith);
}

/// The product of even elements is associative, numerator by numerator.
pub proof fn lemma_product_associates(
    a1: int,
    a2: int,
    a3: int,
    a4: int,
    b1: int,
    b2: int,
    b3: int,
    b4: int,
    c1: int,
    c2: int,
    c3: int,
    c4: int,
)
    ensures
        (a1 * b1 - a2 * b2 - a3 * b3 - a4 * b4) * c1
            - (a2 * b1 + a1 * b2 + a4 * b3 - a3 * b4) * c2
            - (a3 * b1 + a1 * b3 + a2 * b4 - a4 * b2) * c3
            - (a4 * b1 + a1 * b4 + a3 * b2 - a2 * b3) * c4
            == a1 * (b1 * c1 - b2 * c2 - b3 * c3 - b4 * c4)
            - a2 * (b2 * c1 + b1 * c2 + b4 * c3 - b3 * c4)
            - a3 * (b3 * c1 + b1 * c3 + b2 * c4 - b4 * c2)
            - a4 * (b4 * c1 + b1 * c4 + b3 * c2 - b2 * c3),
        (a2 * b1 + a1 * b2 + a4 * b3 - a3 * b4) * c1
            + (a1 * b1 - a2 * b2 - a3 * b3 - a4 * b4) * c2
            + (a4 * b1 + a1 * b4 + a3 * b2 - a2 * b3) * c3
            - (a3 * b1 + a1 * b3 + a2 * b4 - a4 * b2) * c4
            == a2 * (b1 * c1 - b2 * c2 - b3 * c3 - b4 * c4)
            + a1 * (b2 * c1 + b1 * c2 + b4 * c3 - b3 * c4)
            + a4 * (b3 * c1 + b1 * c3 + b2 * c4 - b4 * c2)
            - a3 * (b4 * c1 + b1 * c4 + b3 * c2 - b2 * c3),
        (a3 * b1 + a1 * b3 + a2 * b4 - a4 * b2) * c1
            + (a1 * b1 - a2 * b2 - a3 * b3 - a4 * b4) * c3
            + (a2 * b1 + a1 * b2 + a4 * b3 - a3 * b4) * c4
            - (a4 * b1 + a1 * b4 + a3 * b2 - a2 * b3) * c2
            == a3 * (b1 * c1 - b2 * c2 - b3 * c3 - b4 * c4)
            + a1 * (b3 * c1 + b1 * c3 + b2 * c4 - b4 * c2)
            + a2 * (b4 * c1 + b1 * c4 + b3 * c2 - b2 * c3)
            - a4 * (b2 * c1 + b1 * c2 + b4 * c3 - b3 * c4),
        (a4 * b1 + a1 * b4 + a3 * b2 - a2 * b3) * c1
            + (a1 * b1 - a2 * b2 - a3 * b3 - a4 * b4) * c4
            + (a3 * b1 + a1 * b3 + a2 * b4 - a4 * b2) * c2
            - (a2 * b1 + a1 * b2 + a4 * b3 - a3 * b4) * c3
            == a4 * (b1 * c1 - b2 * c2 - b3 * c3 - b4 * c4)
            + a1 * (b4 * c1 + b1 * c4 + b3 * c2 - b2 * c3)
            + a3 * (b2 * c1 + b1 * c2 + b4 * c3 - b3 * c4)
            - a2 * (b3 * c1 + b1 * c3 + b2 * c4 - b4 * c2),
{
    // Each product of a sum with a factor, multiplied out.
    lemma_expand_right_a(a1 * b1, a2 * b2, a3 * b3, a4 * b4, c1);
    lemma_expand_right_a(a1 * b1, a2 * b2, a3 * b3, a4 * b4, c2);
    lemma_expand_right_a(a1 * b1, a2 * b2, a3 * b3, a4 * b4, c3);
    lemma_expand_right_a(a1 * b1, a2 * b2, a3 * b3, a4 * b4, c4);
    lemma_expand_right_b(a2 * b1, a1 * b2, a4 * b3, a3 * b4, c1);
    lemma_expand_right_b(a2 * b1, a1 * b2, a4 * b3, a3 * b4, c2);
    lemma_expand_right_b(a2 * b1, a1 * b2, a4 * b3, a3 * b4, c3);
    lemma_expand_right_b(a2 * b1, a1 * b2, a4 * b3, a3 * b4, c4);
    lemma_expand_right_b(a3 * b1, a1 * b3, a2 * b4, a4 * b2, c1);
    lemma_expand_right_b(a3 * b1, a1 * b3, a2 * b4, a4 * b2, c2);
    lemma_expand_right_b(a3 * b1, a1 * b3, a2 * b4, a4 * b2, c3);
    lemma_expand_right_b(a3 * b1, a1 * b3, a2 * b4, a4 * b2, c4);
    lemma_expand_right_b(a4 * b1, a1 * b4, a3 * b2, a2 * b3, c1);
    lemma_expand_right_b(a4 * b1, a1 * b4, a3 * b2, a2 * b3, c2);
    lemma_expand_right_b(a4 * b1, a1 * b4, a3 * b2, a2 * b3, c3);
    lemma_expand_right_b(a4 * b1, a1 * b4, a3 * b2, a2 * b3, c4);
    lemma_expand_left_a(a1, b1 * c1, b2 * c2, b3 * c3, b4 * c4);
    lemma_expand_left_b(a1, b2 * c1, b1 * c2, b4 * c3, b3 * c4);
    lemma_expand_left_b(a1, b3 * c1, b1 * c3, b2 * c4, b4 * c2);
    lemma_expand_left_b(a1, b4 * c1, b1 * c4, b3 * c2, b2 * c3);
    lemma_expand_left_a(a2, b1 * c1, b2 * c2, b3 * c3, b4 * c4);
    lemma_expand_left_b(a2, b2 * c1, b1 * c2, b4 * c3, b3 * c4);
    lemma_expand_left_b(a2, b3 * c1, b1 * c3, b2 * c4, b4 * c2);
    lemma_expand_left_b(a2, b4 * c1, b1 * c4, b3 * c2, b2 * c3);
    lemma_expand_left_a(a3, b1 * c1, b2 * c2, b3 * c3, b4 * c4);
    lemma_expand_left_b(a3, b2 * c1, b1 * c2, b4 * c3, b3 * c4);
    lemma_expand_left_b(a3, b3 * c1, b1 * c3, b2 * c4, b4 * c2);
    lemma_expand_left_b(a3, b4 * c1, b1 * c4, b3 * c2, b2 * c3);
    lemma_expand_left_a(a4, b1 * c1, b2 * c2, b3 * c3, b4 * c4);
    lemma_expand_left_b(a4, b2 * c1, b1 * c2, b4 * c3, b3 * c4);
    lemma_expand_left_b(a4, b3 * c1, b1 * c3, b2 * c4, b4 * c2);
    lemma_expand_left_b(a4, b4 * c1, b1 * c4, b3 * c2, b2 * c3);
    // The sixty-four products of three factors, bracketed either way.
    lemma_mul_assoc(a1, b1, c1);
    lemma_mul_assoc(a1, b1, c2);
    lemma_mul_assoc(a1, b1, c3);
    lemma_mul_assoc(a1, b1, c4);
    lemma_mul_assoc(a1, b2, c1);
    lemma_mul_assoc(a1, b2, c2);
    lemma_mul_assoc(a1, b2, c3);
    lemma_mul_assoc(a1, b2, c4);
    lemma_mul_assoc(a1, b3, c1);
    lemma_mul_assoc(a1, b3, c2);
    lemma_mul_assoc(a1, b3, c3);
    lemma_mul_assoc(a1, b3, c4);
    lemma_mul_assoc(a1, b4, c1);
    lemma_mul_assoc(a1, b4, c2);
    lemma_mul_assoc(a1, b4, c3);
    lemma_mul_assoc(a1, b4, c4);
    lemma_mul_assoc(a2, b1, c1);
    lemma_mul_assoc(a2, b1, c2);
    lemma_mul_assoc(a2, b1, c3);
    lemma_mul_assoc(a2, b1, c4);
    lemma_mul_assoc(a2, b2, c1);
    lemma_mul_assoc(a2, b2, c2);
    lemma_mul_assoc(a2, b2, c3);
    lemma_mul_assoc(a2, b2, c4);
    lemma_mul_assoc(a2, b3, c1);
    lemma_mul_assoc(a2, b3, c2);
    lemma_mul_assoc(a2, b3, c3);
    lemma_mul_assoc(a2, b3, c4);
    lemma_mul_assoc(a2, b4, c1);
    lemma_mul_assoc(a2, b4, c2);
    lemma_mul_assoc(a2, b4, c3);
    lemma_mul_assoc(a2, b4, c4);
    lemma_mul_assoc(a3, b1, c1);
    lemma_mul_assoc(a3, b1, c2);
    lemma_mul_assoc(a3, b1, c3);
    lemma_mul_assoc(a3, b1, c4);
    lemma_mul_assoc(a3, b2, c1);
    lemma_mul_assoc(a3, b2, c2);
    lemma_mul_assoc(a3, b2, c3);
    lemma_mul_assoc(a3, b2, c4);
    lemma_mul_assoc(a3, b3, c1);
    lemma_mul_assoc(a3, b3, c2);
    lemma_mul_assoc(a3, b3, c3);
    lemma_mul_assoc(a3, b3, c4);
    lemma_mul_assoc(a3, b4, c1);
    lemma_mul_assoc(a3, b4, c2);
    lemma_mul_assoc(a3, b4, c3);
    lemma_mul_assoc(a3, b4, c4);
    lemma_mul_assoc(a4, b1, c1);
    lemma_mul_assoc(a4, b1, c2);
    lemma_mul_assoc(a4, b1, c3);
    lemma_mul_assoc(a4, b1, c4);
    lemma_mul_assoc(a4, b2, c1);
    lemma_mul_assoc(a4, b2, c2);
    lemma_mul_assoc(a4, b2, c3);
    lemma_mul_assoc(a4, b2, c4);
    lemma_mul_assoc(a4, b3, c1);
    lemma_mul_assoc(a4, b3, c2);
    lemma_mul_assoc(a4, b3, c3);
    lemma_mul_assoc(a4, b3, c4);
    lemma_mul_assoc(a4, b4, c1);
    lemma_mul_assoc(a4, b4, c2);
    lemma_mul_assoc(a4, b4, c3);
    lemma_mul_assoc(a4, b4, c4);
}

} // verus!
