//! Identities of real arithmetic, each small enough for the solver to
//! settle at once. Longer identities are put together from these.
use vstd::prelude::*;

verus! {

/// Products commute, associate, distribute over sums and differences from
/// both sides, and pull a sign out.
pub proof fn lemma_real_product(a: real, b: real, c: real)
    ensures
        a * b == b * a,
        (a * b) * c == a * (b * c),
        a * (b + c) == a * b + a * c,
        a * (b - c) == a * b - a * c,
        (b + c) * a == b * a + c * a,
        (b - c) * a == b * a - c * a,
        (-a) * b == -(a * b),
{
    assert(a * b == b * a) by (nonlinear_arith);
    assert((a * b) * c == a * (b * c)) by (nonlinear_arith);
    assert(a * (b + c) == a * b + a * c) by (nonlinear_arith);
    assert(a * (b - c) == a * b - a * c) by (nonlinear_arith);
    assert((b + c) * a == b * a + c * a) by (nonlinear_arith);
    assert((b - c) * a == b * a - c * a) by (nonlinear_arith);
    assert((-a) * b == -(a * b)) by (nonlinear_arith);
}

/// A product of two products may trade its inner factors.
pub proof fn lemma_real_interchange(p: real, q: real, r: real, s: real)
    ensures
        (p * q) * (r * s) == (p * r) * (q * s),
        (p * q) * (r * s) == (p * s) * (r * q),
{
    assert((p * q) * (r * s) == (p * r) * (q * s)) by (nonlinear_arith);
    assert((p * q) * (r * s) == (p * s) * (r * q)) by (nonlinear_arith);
}

/// The squares of a sum and of a difference.
pub proof fn lemma_real_squares(x: real, y: real)
    ensures
        (x + y) * (x + y) == x * x + (x * y + x * y) + y * y,
        (x - y) * (x - y) == x * x - (x * y + x * y) + y * y,
{
    assert((x + y) * (x + y) == x * x + (x * y + x * y) + y * y) by (nonlinear_arith);
    assert((x - y) * (x - y) == x * x - (x * y + x * y) + y * y) by (nonlinear_arith);
}

/// A factor that equals one or zero acts as one or zero does.
pub proof fn lemma_real_unit(c: real, x: real)
    ensures
        c == 1real ==> c * x == x,
        c == 0real ==> c * x == 0real,
{
    assert(c == 1real ==> c * x == x) by (nonlinear_arith);
    assert(c == 0real ==> c * x == 0real) by (nonlinear_arith);
}

/// A factor that is twice another gives twice the product.
pub proof fn lemma_real_doubling(p: real, half: real, x: real)
    requires
        p == 2real * half,
    ensures
        p * x == 2real * (half * x),
{
    assert(p * x == 2real * (half * x)) by (nonlinear_arith)
        requires
            p == 2real * half,
    ;
}

/// A sum of two squares whose own square is one is one.
pub proof fn lemma_real_unit_square(a: real, b: real)
    requires
        (a * a + b * b) * (a * a + b * b) == 1real,
    ensures
        a * a + b * b == 1real,
{
    let x = a * a + b * b;
    assert(a * a >= 0real) by (nonlinear_arith);
    assert(b * b >= 0real) by (nonlinear_arith);
    assert(x == 1real) by (nonlinear_arith)
        requires
            x * x == 1real,
            x >= 0real,
    ;
}

} // verus!
