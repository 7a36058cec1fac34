//! Exact arithmetic: complex numbers with real parts, and readings of the
//! scalars as real numbers.
//!
//! The scalar's arithmetic is exact when the scalars can be read as real
//! numbers in a way that the operators respect. Rounding arithmetic has no
//! such reading; what is proved here under one, it meets only up to its
//! rounding error.
use crate::complex::{Complex, Scalar};
use crate::reals::{lemma_real_interchange, lemma_real_product, lemma_real_squares};
use vstd::prelude::*;
use vstd::std_specs::ops::{AddSpec, MulSpec, SubSpec};

verus! {

/// A complex number with real parts.
pub struct Exact {
    pub re: real,
    pub im: real,
}

impl Exact {
    /// The number zero.
    pub open spec fn zero() -> Exact {
        Exact { re: 0real, im: 0real }
    }

    /// The number one.
    pub open spec fn one() -> Exact {
        Exact { re: 1real, im: 0real }
    }

    /// The number minus one.
    pub open spec fn minus_one() -> Exact {
        Exact { re: -1real, im: 0real }
    }

    /// The sum of two numbers.
    pub open spec fn plus(self, other: Exact) -> Exact {
        Exact { re: self.re + other.re, im: self.im + other.im }
    }

    /// The difference of two numbers.
    pub open spec fn minus(self, other: Exact) -> Exact {
        Exact { re: self.re - other.re, im: self.im - other.im }
    }

    /// The product of two numbers.
    pub open spec fn times(self, other: Exact) -> Exact {
        Exact {
            re: self.re * other.re - self.im * other.im,
            im: self.re * other.im + self.im * other.re,
        }
    }

    /// Both parts multiplied by the real number `v`.
    pub open spec fn scaled(self, v: real) -> Exact {
        Exact { re: self.re * v, im: self.im * v }
    }

    /// The number multiplied `e` times by itself, starting from one.
    pub open spec fn power(self, e: nat) -> Exact
        decreases e,
    {
        if e == 0 {
            Exact::one()
        } else {
            self.power((e - 1) as nat).times(self)
        }
    }

    /// The squared magnitude.
    pub open spec fn norm(self) -> real {
        self.re * self.re + self.im * self.im
    }
}

/// `val` reads the scalars as real numbers, and sums, differences and
/// products of scalars read as those of the real numbers.
pub open spec fn respects<F: Scalar>(val: spec_fn(F) -> real) -> bool {
    &&& forall|a: F, b: F| val(#[trigger] a.add_spec(b)) == val(a) + val(b)
    &&& forall|a: F, b: F| val(#[trigger] a.sub_spec(b)) == val(a) - val(b)
    &&& forall|a: F, b: F| val(#[trigger] a.mul_spec(b)) == val(a) * val(b)
}

/// A complex number of scalars, read part by part.
pub open spec fn read<F: Scalar>(val: spec_fn(F) -> real, c: Complex<F>) -> Exact {
    Exact { re: val(c.real), im: val(c.imag) }
}

/// Products of exact complex numbers commute.
pub proof fn lemma_times_commutes(x: Exact, y: Exact)
    ensures
        x.times(y) == y.times(x),
{
    lemma_real_product(x.re, y.re, 0real);
    lemma_real_product(x.im, y.im, 0real);
    lemma_real_product(x.re, y.im, 0real);
    lemma_real_product(x.im, y.re, 0real);
}

/// Products of exact complex numbers distribute over sums.
pub proof fn lemma_times_distributes(w: Exact, x: Exact, y: Exact)
    ensures
        w.times(x.plus(y)) == w.times(x).plus(w.times(y)),
{
    lemma_real_product(w.re, x.re, y.re);
    lemma_real_product(w.im, x.im, y.im);
    lemma_real_product(w.re, x.im, y.im);
    lemma_real_product(w.im, x.re, y.re);
}

/// Products of exact complex numbers associate.
pub proof fn lemma_times_associates(x: Exact, y: Exact, z: Exact)
    ensures
        x.times(y).times(z) == x.times(y.times(z)),
{
    lemma_real_product(z.re, x.re * y.re, x.im * y.im);
    lemma_real_product(z.im, x.re * y.im, x.im * y.re);
    lemma_real_product(z.im, x.re * y.re, x.im * y.im);
    lemma_real_product(z.re, x.re * y.im, x.im * y.re);
    lemma_real_product(x.re, y.re * z.re, y.im * z.im);
    lemma_real_product(x.im, y.re * z.im, y.im * z.re);
    lemma_real_product(x.re, y.re * z.im, y.im * z.re);
    lemma_real_product(x.im, y.re * z.re, y.im * z.im);
    lemma_real_product(x.re, y.re, z.re);
    lemma_real_product(x.re, y.re, z.im);
    lemma_real_product(x.re, y.im, z.re);
    lemma_real_product(x.re, y.im, z.im);
    lemma_real_product(x.im, y.re, z.re);
    lemma_real_product(x.im, y.re, z.im);
    lemma_real_product(x.im, y.im, z.re);
    lemma_real_product(x.im, y.im, z.im);
}

/// Multiplying by minus one negates the product.
pub proof fn lemma_times_minus_one(x: Exact, y: Exact)
    ensures
        x.times(Exact::minus_one()).times(y) == Exact::zero().minus(x.times(y)),
{
    lemma_real_product(x.re, y.re, 0real);
    lemma_real_product(x.im, y.im, 0real);
    lemma_real_product(x.re, y.im, 0real);
    lemma_real_product(x.im, y.re, 0real);
}

/// The squared magnitude of a product is the product of the squared
/// magnitudes.
pub proof fn lemma_norm_of_product(w: Exact, z: Exact)
    ensures
        w.times(z).norm() == w.norm() * z.norm(),
{
    let a = w.re;
    let b = w.im;
    let c = z.re;
    let d = z.im;
    lemma_real_squares(a * c, b * d);
    lemma_real_squares(a * d, b * c);
    lemma_real_interchange(a, c, b, d);
    lemma_real_interchange(a, d, b, c);
    lemma_real_interchange(a, c, a, c);
    lemma_real_interchange(b, d, b, d);
    lemma_real_interchange(a, d, a, d);
    lemma_real_interchange(b, c, b, c);
    lemma_real_product(a * a + b * b, c * c, d * d);
    lemma_real_product(c * c, a * a, b * b);
    lemma_real_product(d * d, a * a, b * b);
}

/// A power with a sum as exponent is the product of the two powers.
pub proof fn lemma_power_adds(w: Exact, a: nat, b: nat)
    ensures
        w.power(a + b) == w.power(a).times(w.power(b)),
    decreases b,
{
    if b > 0 {
        lemma_power_adds(w, a, (b - 1) as nat);
        lemma_times_associates(w.power(a), w.power((b - 1) as nat), w);
        assert(w.power(a + b) == w.power((a + b - 1) as nat).times(w));
    }
}

/// A power of a power is the power with the product as exponent.
pub proof fn lemma_power_of_power(w: Exact, a: nat, b: nat)
    ensures
        w.power(a).power(b) == w.power(a * b),
    decreases b,
{
    if b > 0 {
        lemma_power_of_power(w, a, (b - 1) as nat);
        lemma_power_adds(w, a * ((b - 1) as nat), a);
        assert(a * ((b - 1) as nat) + a == a * b) by (nonlinear_arith)
            requires
                b > 0,
        ;
    } else {
        assert(a * b == 0) by (nonlinear_arith)
            requires
                b == 0,
        ;
    }
}

/// A power of a square is the power with twice the exponent.
pub proof fn lemma_power_of_square(w: Exact, m: nat)
    ensures
        w.times(w).power(m) == w.power(2 * m),
{
    reveal_with_fuel(Exact::power, 3);
    assert(w.power(2) == w.times(w));
    lemma_power_of_power(w, 2, m);
}

/// Every power of one is one.
pub proof fn lemma_power_of_one(m: nat)
    ensures
        Exact::one().power(m) == Exact::one(),
    decreases m,
{
    if m > 0 {
        lemma_power_of_one((m - 1) as nat);
    }
}

} // verus!
