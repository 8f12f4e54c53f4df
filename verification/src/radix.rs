//! Mixed-radix positions in three-axis row-major layouts.
use vstd::prelude::*;
use vstd::arithmetic::div_mod::{lemma_div_denominator, lemma_fundamental_div_mod, lemma_fundamental_div_mod_converse};

verus! {

/// Row-major position of `(u, v, w)` in an `[_, b, c]` layout.
pub open spec fn spec_pos3(u: int, v: int, w: int, b: int, c: int) -> int {
    (u * b + v) * c + w
}

/// Composing a position from in-range coordinates stays in range and decomposes back.
pub proof fn lemma_compose3(u: int, v: int, w: int, a: int, b: int, c: int)
    requires
        0 <= u < a,
        0 <= v < b,
        0 <= w < c,
    ensures
        0 <= spec_pos3(u, v, w, b, c) < a * b * c,
        spec_pos3(u, v, w, b, c) % c == w,
        (spec_pos3(u, v, w, b, c) / c) % b == v,
        spec_pos3(u, v, w, b, c) / (b * c) == u,
{
    let q = u * b + v;
    let p = q * c + w;
    assert(0 <= q < a * b) by (nonlinear_arith) requires 0 <= u < a, 0 <= v < b, q == u * b + v;
    assert(0 <= p < a * b * c) by (nonlinear_arith) requires 0 <= q < a * b, 0 <= w < c, p == q * c + w;
    lemma_fundamental_div_mod_converse(p, c, q, w);
    lemma_fundamental_div_mod_converse(q, b, u, v);
    lemma_div_denominator(p, c, b);
    assert(c * b == b * c) by (nonlinear_arith);
}

/// Every position of an `[a, b, c]` layout is the composition of its coordinates.
pub proof fn lemma_decompose3(p: int, a: int, b: int, c: int)
    requires
        a > 0,
        b > 0,
        c > 0,
        0 <= p < a * b * c,
    ensures
        0 <= p / (b * c) < a,
        0 <= (p / c) % b < b,
        0 <= p % c < c,
        p == spec_pos3(p / (b * c), (p / c) % b, p % c, b, c),
{
    let q = p / c;
    let w = p % c;
    lemma_fundamental_div_mod(p, c);
    assert(0 <= q) by (nonlinear_arith) requires p >= 0, c > 0, q == p / c;
    assert(q < a * b) by (nonlinear_arith) requires p == c * q + w, 0 <= w, p < a * b * c, c > 0;
    let v = q % b;
    let u = q / b;
    lemma_fundamental_div_mod(q, b);
    assert(0 <= u) by (nonlinear_arith) requires q >= 0, b > 0, u == q / b;
    assert(u < a) by (nonlinear_arith) requires q == b * u + v, 0 <= v, q < a * b, b > 0;
    lemma_div_denominator(p, c, b);
    assert(c * b == b * c) by (nonlinear_arith);
    assert(p == (u * b + v) * c + w) by (nonlinear_arith) requires p == c * q + w, q == b * u + v;
}

} // verus!
