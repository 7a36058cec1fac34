//! Complex numbers over an arbitrary scalar type, with the four operations
//! the butterfly needs: sum, difference, product and scaling.
use std::ops::{Add, Mul, Sub};
use vstd::prelude::*;
use vstd::std_specs::ops::{AddSpec, AddSpecImpl, MulSpec, MulSpecImpl, SubSpec, SubSpecImpl};

verus! {

/// What a component of a complex number has to offer: it is copied freely and
/// closed under `+`, `-` and `*`.
pub trait Scalar: Copy + Add<Output = Self> + Sub<Output = Self> + Mul<Output = Self> {

}

impl<T: Copy + Add<Output = T> + Sub<Output = T> + Mul<Output = T>> Scalar for T {

}

/// Every sum, difference and product of two scalars is defined.
pub open spec fn total<F: Scalar>() -> bool {
    &&& forall|a: F, b: F| #[trigger] a.add_req(b)
    &&& forall|a: F, b: F| #[trigger] a.sub_req(b)
    &&& forall|a: F, b: F| #[trigger] a.mul_req(b)
}

/// The scalar's operators are functions of their operands: `+`, `-` and `*`
/// return what `add_spec`, `sub_spec` and `mul_spec` say.
pub open spec fn functional<F: Scalar>() -> bool {
    &&& F::obeys_add_spec()
    &&& F::obeys_sub_spec()
    &&& F::obeys_mul_spec()
}

/// One point of the complex plane.
#[derive(Debug, Clone, Copy, PartialEq)]
pub struct Complex<F> {
    pub real: F,
    pub imag: F,
}

impl<F> Complex<F> {
    /// The number `re + im * i`.
    pub fn new(re: F, im: F) -> (c: Self)
        ensures
            c.real == re,
            c.imag == im,
    {
        Complex { real: re, imag: im }
    }
}

impl<F: Scalar> Complex<F> {
    /// Component-wise sum.
    pub open spec fn plus(self, other: Self) -> Self {
        Complex {
            real: self.real.add_spec(other.real),
            imag: self.imag.add_spec(other.imag),
        }
    }

    /// Component-wise difference.
    pub open spec fn minus(self, other: Self) -> Self {
        Complex {
            real: self.real.sub_spec(other.real),
            imag: self.imag.sub_spec(other.imag),
        }
    }

    /// The complex product, with the real part formed as a difference of two
    /// products and the imaginary part as a sum of two.
    pub open spec fn times(self, other: Self) -> Self {
        Complex {
            real: self.real.mul_spec(other.real).sub_spec(self.imag.mul_spec(other.imag)),
            imag: self.real.mul_spec(other.imag).add_spec(self.imag.mul_spec(other.real)),
        }
    }

    /// Both components multiplied by the scalar `s`.
    pub open spec fn scaled(self, s: F) -> Self {
        Complex { real: self.real.mul_spec(s), imag: self.imag.mul_spec(s) }
    }
}

impl<F: Scalar> AddSpecImpl for Complex<F> {
    open spec fn obeys_add_spec() -> bool {
        F::obeys_add_spec()
    }

    open spec fn add_req(self, other: Self) -> bool {
        self.real.add_req(other.real) && self.imag.add_req(other.imag)
    }

    open spec fn add_spec(self, other: Self) -> Self {
        self.plus(other)
    }
}

impl<F: Scalar> Add for Complex<F> {
    type Output = Self;

    fn add(self, other: Self) -> Self {
        Complex { real: self.real + other.real, imag: self.imag + other.imag }
    }
}

impl<F: Scalar> SubSpecImpl for Complex<F> {
    open spec fn obeys_sub_spec() -> bool {
        F::obeys_sub_spec()
    }

    open spec fn sub_req(self, other: Self) -> bool {
        self.real.sub_req(other.real) && self.imag.sub_req(other.imag)
    }

    open spec fn sub_spec(self, other: Self) -> Self {
        self.minus(other)
    }
}

impl<F: Scalar> Sub for Complex<F> {
    type Output = Self;

    fn sub(self, other: Self) -> Self {
        Complex { real: self.real - other.real, imag: self.imag - other.imag }
    }
}

impl<F: Scalar> MulSpecImpl for Complex<F> {
    open spec fn obeys_mul_spec() -> bool {
        functional::<F>()
    }

    open spec fn mul_req(self, other: Self) -> bool {
        total::<F>()
    }

    open spec fn mul_spec(self, other: Self) -> Self {
        self.times(other)
    }
}

impl<F: Scalar> Mul for Complex<F> {
    type Output = Self;

    fn mul(self, other: Self) -> Self {
        Complex {
            real: self.real * other.real - self.imag * other.imag,
            imag: self.real * other.imag + self.imag * other.real,
        }
    }
}

impl<F: Scalar> MulSpecImpl<F> for Complex<F> {
    open spec fn obeys_mul_spec() -> bool {
        F::obeys_mul_spec()
    }

    open spec fn mul_req(self, scalar: F) -> bool {
        self.real.mul_req(scalar) && self.imag.mul_req(scalar)
    }

    open spec fn mul_spec(self, scalar: F) -> Self {
        self.scaled(scalar)
    }
}

impl<F: Scalar> Mul<F> for Complex<F> {
    type Output = Self;

    fn mul(self, scalar: F) -> Self {
        Complex { real: self.real * scalar, imag: self.imag * scalar }
    }
}

} // verus!
