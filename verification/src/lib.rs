//! A radix-2 fast Fourier transform with unitary scaling, generic over the
//! scalar type of its complex samples.
//!
//! The transform is written once for every scalar that can be copied, added,
//! subtracted and multiplied. Its contract states the result as a function
//! of the input sequence and of a table of rotation factors, in terms of the
//! scalar's own operators: it holds to the last bit for whichever arithmetic
//! the scalar brings, rounding arithmetic included.
//!
//! - `complex`: complex numbers over a scalar, and their four operations.
//! - `length`: the lengths that the transform accepts.
//! - `spectrum`: the table of rotation factors, and what the transform
//!   computes from it, as functions on sequences.
//! - `transform`: the transform itself.
//! - `laws`: the single sample, the length, and linearity.
//! - `reals`, `exact`: real and complex arithmetic for the laws that need
//!   exact arithmetic.
//! - `energy`: the unitary transform preserves energy.
//! - `fourier`: every bin is the discrete Fourier sum.
pub mod complex;
pub mod energy;
pub mod exact;
pub mod fourier;
pub mod laws;
pub mod length;
pub mod reals;
pub mod spectrum;
pub mod transform;

pub use complex::Complex;
pub use complex::Scalar;
pub use length::levels_for;
pub use spectrum::Twiddles;
pub use transform::fft;
