//! The exact geometric product is associative, whatever the grades of its
//! three factors: the associativity of the product of even elements carries over
//! to the mixed products through the dual.

use vstd::prelude::*;
use crate::dual::{
    dual_of_odd, lemma_even_odd_through_dual, lemma_negated_factor, lemma_odd_even_through_dual,
    lemma_odd_odd_through_dual,
};
use crate::identities::{lemma_mul_assoc, lemma_product_associates};
use crate::model::{EvenModel, OddModel};

verus! {

/// The product of three even elements does not depend on the bracketing.
pub proof fn lemma_associative_even_even_even(a: EvenModel, b: EvenModel, c: EvenModel)
    ensures
        a.mul_even(b).mul_even(c) == a.mul_even(b.mul_even(c)),
{
    lemma_product_associates(
        a.sca,
        a.yz,
        a.zx,
        a.xy,
        b.sca,
        b.yz,
        b.zx,
        b.xy,
        c.sca,
        c.yz,
        c.zx,
        c.xy,
    );
    lemma_mul_assoc(a.den, b.den, c.den);
}

/// `(u * m) * v == u * (m * v)` for odd `u`, `m` and `v`.
pub proof fn lemma_associative_odd_odd_odd(u: OddModel, m: OddModel, v: OddModel)
    ensures
        u.mul_odd(m).mul_odd(v) == u.mul_even(m.mul_odd(v)),
{
    let (p, q, r) = (dual_of_odd(u), dual_of_odd(m), dual_of_odd(v));
    lemma_odd_odd_through_dual(u, m);
    lemma_even_odd_through_dual(u.mul_odd(m), v);
    lemma_negated_factor(p.mul_even(q), r);
    lemma_odd_odd_through_dual(m, v);
    lemma_odd_even_through_dual(u, m.mul_odd(v));
    lemma_negated_factor(p, q.mul_even(r));
    lemma_associative_even_even_even(p, q, r);
}

/// `a * (b * w) == (a * b) * w` for even `a`, `b` and odd `w`.
pub proof fn lemma_associative_even_even_odd(a: EvenModel, b: EvenModel, w: OddModel)
    ensures
        a.mul_even(b).mul_odd(w) == a.mul_odd(b.mul_odd(w)),
{
    let q = dual_of_odd(w);
    lemma_even_odd_through_dual(b, w);
    lemma_even_odd_through_dual(a, b.mul_odd(w));
    assert(dual_of_odd(b.mul_odd(w)) == b.mul_even(q));
    lemma_even_odd_through_dual(a.mul_even(b), w);
    lemma_associative_even_even_even(a, b, q);
}

/// `a * (w * b) == (a * w) * b` for even `a`, `b` and odd `w`.
pub proof fn lemma_associative_even_odd_even(a: EvenModel, w: OddModel, b: EvenModel)
    ensures
        a.mul_odd(w).mul_even(b) == a.mul_odd(w.mul_even(b)),
{
    let q = dual_of_odd(w);
    lemma_odd_even_through_dual(w, b);
    lemma_even_odd_through_dual(a, w.mul_even(b));
    assert(dual_of_odd(w.mul_even(b)) == q.mul_even(b));
    lemma_even_odd_through_dual(a, w);
    lemma_odd_even_through_dual(a.mul_odd(w), b);
    assert(dual_of_odd(a.mul_odd(w)) == a.mul_even(q));
    lemma_associative_even_even_even(a, q, b);
}

/// `(w * a) * b == w * (a * b)` for odd `w` and even `a`, `b`.
pub proof fn lemma_associative_odd_even_even(w: OddModel, a: EvenModel, b: EvenModel)
    ensures
        w.mul_even(a).mul_even(b) == w.mul_even(a.mul_even(b)),
{
    let q = dual_of_odd(w);
    lemma_odd_even_through_dual(w, a);
    lemma_odd_even_through_dual(w.mul_even(a), b);
    assert(dual_of_odd(w.mul_even(a)) == q.mul_even(a));
    lemma_odd_even_through_dual(w, a.mul_even(b));
    lemma_associative_even_even_even(q, a, b);
}

} // verus!
