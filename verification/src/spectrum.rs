//! What the transform computes, stated as functions on sequences.
//!
//! The result is pinned down operation by operation, in the order in which
//! the butterflies apply them, because the scalar's arithmetic need not be
//! associative or distributive.
use crate::complex::{Complex, Scalar};
use vstd::arithmetic::power2::pow2;
use vstd::prelude::*;

verus! {

/// The constants that a transform of one length needs: where the rotation
/// starts, by what it advances at each level, and the final scale.
///
/// A table with `k` steps serves sequences of length `2^k`. For the unitary
/// discrete Fourier transform, `unit` is the number one, `steps[j]` is the
/// point of the unit circle at the angle `-2 pi / 2^(j + 1)`, and `scale` is
/// `1 / sqrt(2^k)`.
#[derive(Debug, Clone, PartialEq)]
pub struct Twiddles<F> {
    /// The rotation factor of the first butterfly of every block.
    pub unit: Complex<F>,
    /// `steps[j]` advances the rotation factor while blocks of length
    /// `2^(j + 1)` are combined.
    pub steps: Vec<Complex<F>>,
    /// The factor applied to every sample once all blocks are combined.
    pub scale: F,
}

impl<F> Twiddles<F> {
    /// A table from its three parts.
    pub fn new(unit: Complex<F>, steps: Vec<Complex<F>>, scale: F) -> (t: Self)
        ensures
            t.unit == unit,
            t.steps == steps,
            t.scale == scale,
    {
        Twiddles { unit, steps, scale }
    }

    /// The length of the sequences that this table serves.
    pub open spec fn length(&self) -> nat {
        pow2(self.steps@.len())
    }
}

/// The samples at the even positions, in order.
pub open spec fn evens<T>(s: Seq<T>) -> Seq<T> {
    Seq::new((s.len() / 2) as nat, |i: int| s[2 * i])
}

/// The samples at the odd positions, in order.
pub open spec fn odds<T>(s: Seq<T>) -> Seq<T> {
    Seq::new((s.len() / 2) as nat, |i: int| s[2 * i + 1])
}

/// The rotation factor of the butterfly at position `i`: `unit`, multiplied
/// `i` times from the right by `step`.
pub open spec fn rotation<F: Scalar>(unit: Complex<F>, step: Complex<F>, i: nat) -> Complex<F>
    decreases i,
{
    if i == 0 {
        unit
    } else {
        rotation(unit, step, (i - 1) as nat).times(step)
    }
}

/// Two transformed halves combined into one block of twice the length.
/// Position `i` of the first half holds `even[i] + w * odd[i]`, position `i`
/// of the second half holds `even[i] - w * odd[i]`, with `w` the rotation
/// factor at `i`.
pub open spec fn butterfly<F: Scalar>(
    even: Seq<Complex<F>>,
    odd: Seq<Complex<F>>,
    unit: Complex<F>,
    step: Complex<F>,
) -> Seq<Complex<F>> {
    Seq::new(
        2 * even.len(),
        |i: int|
            if i < even.len() {
                even[i].plus(rotation(unit, step, i as nat).times(odd[i]))
            } else {
                let j = i - even.len();
                even[j].minus(rotation(unit, step, j as nat).times(odd[j]))
            },
    )
}

/// The transform before scaling. With no step left the block is a single
/// sample and stands for itself; otherwise the even and the odd samples are
/// transformed with the remaining steps and combined with the last one.
pub open spec fn unscaled<F: Scalar>(
    s: Seq<Complex<F>>,
    unit: Complex<F>,
    steps: Seq<Complex<F>>,
) -> Seq<Complex<F>>
    decreases steps.len(),
{
    if steps.len() == 0 {
        s
    } else {
        let lower = steps.drop_last();
        butterfly(
            unscaled(evens(s), unit, lower),
            unscaled(odds(s), unit, lower),
            unit,
            steps.last(),
        )
    }
}

/// The transform: every sample of the unscaled result, multiplied once by
/// the table's scale.
pub open spec fn spectrum<F: Scalar>(s: Seq<Complex<F>>, tw: Twiddles<F>) -> Seq<Complex<F>> {
    unscaled(s, tw.unit, tw.steps@).map_values(|c: Complex<F>| c.scaled(tw.scale))
}

/// The unscaled transform keeps the length of a sequence that the steps
/// fit.
pub proof fn lemma_unscaled_len<F: Scalar>(
    s: Seq<Complex<F>>,
    unit: Complex<F>,
    steps: Seq<Complex<F>>,
)
    requires
        s.len() == pow2(steps.len()),
    ensures
        unscaled(s, unit, steps).len() == s.len(),
    decreases steps.len(),
{
    if steps.len() > 0 {
        vstd::arithmetic::power2::lemma_pow2_unfold(steps.len());
        lemma_unscaled_len(evens(s), unit, steps.drop_last());
    }
}

} // verus!
