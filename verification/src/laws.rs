//! Laws of the transform, proved from the definitions in `spectrum`.
use crate::complex::{Complex, Scalar};
use crate::spectrum::{butterfly, evens, lemma_unscaled_len, odds, rotation, spectrum, unscaled, Twiddles};
use vstd::arithmetic::power2::{lemma_pow2_unfold, pow2};
use vstd::prelude::*;
use vstd::std_specs::ops::{AddSpec, MulSpec, SubSpec};

verus! {

/// A sequence of one sample passes through no butterfly: its transform is
/// that sample times the scale.
pub proof fn lemma_single_sample_scaled<F: Scalar>(s: Seq<Complex<F>>, tw: Twiddles<F>)
    requires
        s.len() == 1,
        tw.steps@.len() == 0,
    ensures
        spectrum(s, tw) == seq![s[0].scaled(tw.scale)],
{
    assert(spectrum(s, tw) =~= seq![s[0].scaled(tw.scale)]);
}

/// A sequence of one sample is its own transform whenever scaling leaves
/// that sample as it is, as the scale one of the unitary transform does.
pub proof fn lemma_single_sample_unchanged<F: Scalar>(s: Seq<Complex<F>>, tw: Twiddles<F>)
    requires
        s.len() == 1,
        tw.steps@.len() == 0,
        s[0].scaled(tw.scale) == s[0],
    ensures
        spectrum(s, tw) == s,
{
    assert(spectrum(s, tw) =~= s);
}

/// The transform keeps the length of every sequence that the table serves.
pub proof fn lemma_spectrum_len<F: Scalar>(s: Seq<Complex<F>>, tw: Twiddles<F>)
    requires
        s.len() == tw.length(),
    ensures
        spectrum(s, tw).len() == s.len(),
{
    lemma_unscaled_len(s, tw.unit, tw.steps@);
}

/// The sample-wise sum of two sequences of one length.
pub open spec fn sum_of<F: Scalar>(a: Seq<Complex<F>>, b: Seq<Complex<F>>) -> Seq<Complex<F>> {
    Seq::new(a.len(), |i: int| a[i].plus(b[i]))
}

/// The scalar's arithmetic is exact enough for sums to pass through the
/// transform: products distribute over sums from both sides, and two sums
/// may trade their inner terms under `+` and under `-`. Every commutative
/// ring meets this; rounding arithmetic does not.
pub open spec fn sums_pass<F: Scalar>() -> bool {
    &&& forall|a: F, b: F, c: F| #[trigger]
        a.mul_spec(b.add_spec(c)) == a.mul_spec(b).add_spec(a.mul_spec(c))
    &&& forall|a: F, b: F, c: F| #[trigger]
        a.add_spec(b).mul_spec(c) == a.mul_spec(c).add_spec(b.mul_spec(c))
    &&& forall|a: F, b: F, c: F, d: F| #[trigger]
        a.add_spec(b).add_spec(c.add_spec(d)) == a.add_spec(c).add_spec(b.add_spec(d))
    &&& forall|a: F, b: F, c: F, d: F| #[trigger]
        a.add_spec(b).sub_spec(c.add_spec(d)) == a.sub_spec(c).add_spec(b.sub_spec(d))
}

proof fn lemma_times_distributes<F: Scalar>(w: Complex<F>, x: Complex<F>, y: Complex<F>)
    requires
        sums_pass::<F>(),
    ensures
        w.times(x.plus(y)) == w.times(x).plus(w.times(y)),
{
}

proof fn lemma_halves_of_sum<F: Scalar>(a: Seq<Complex<F>>, b: Seq<Complex<F>>)
    requires
        a.len() == b.len(),
    ensures
        evens(sum_of(a, b)) == sum_of(evens(a), evens(b)),
        odds(sum_of(a, b)) == sum_of(odds(a), odds(b)),
{
    assert(evens(sum_of(a, b)) =~= sum_of(evens(a), evens(b)));
    assert(odds(sum_of(a, b)) =~= sum_of(odds(a), odds(b)));
}

proof fn lemma_butterfly_of_sum<F: Scalar>(
    e1: Seq<Complex<F>>,
    o1: Seq<Complex<F>>,
    e2: Seq<Complex<F>>,
    o2: Seq<Complex<F>>,
    unit: Complex<F>,
    step: Complex<F>,
)
    requires
        sums_pass::<F>(),
        e1.len() == o1.len(),
        e2.len() == e1.len(),
        o2.len() == e1.len(),
    ensures
        butterfly(sum_of(e1, e2), sum_of(o1, o2), unit, step) == sum_of(
            butterfly(e1, o1, unit, step),
            butterfly(e2, o2, unit, step),
        ),
{
    let lhs = butterfly(sum_of(e1, e2), sum_of(o1, o2), unit, step);
    let rhs = sum_of(butterfly(e1, o1, unit, step), butterfly(e2, o2, unit, step));
    assert forall|i: int| 0 <= i < lhs.len() implies lhs[i] == rhs[i] by {
        let j = if i < e1.len() { i } else { i - e1.len() };
        let w = rotation(unit, step, j as nat);
        lemma_times_distributes(w, o1[j], o2[j]);
    }
    assert(lhs =~= rhs);
}

proof fn lemma_unscaled_of_sum<F: Scalar>(
    a: Seq<Complex<F>>,
    b: Seq<Complex<F>>,
    unit: Complex<F>,
    steps: Seq<Complex<F>>,
)
    requires
        sums_pass::<F>(),
        a.len() == pow2(steps.len()),
        b.len() == a.len(),
    ensures
        unscaled(sum_of(a, b), unit, steps) == sum_of(
            unscaled(a, unit, steps),
            unscaled(b, unit, steps),
        ),
    decreases steps.len(),
{
    if steps.len() == 0 {
        assert(sum_of(a, b) =~= sum_of(unscaled(a, unit, steps), unscaled(b, unit, steps)));
    } else {
        let lower = steps.drop_last();
        lemma_pow2_unfold(steps.len());
        lemma_halves_of_sum(a, b);
        lemma_unscaled_of_sum(evens(a), evens(b), unit, lower);
        lemma_unscaled_of_sum(odds(a), odds(b), unit, lower);
        lemma_unscaled_len(evens(a), unit, lower);
        lemma_unscaled_len(odds(a), unit, lower);
        lemma_unscaled_len(evens(b), unit, lower);
        lemma_unscaled_len(odds(b), unit, lower);
        lemma_butterfly_of_sum(
            unscaled(evens(a), unit, lower),
            unscaled(odds(a), unit, lower),
            unscaled(evens(b), unit, lower),
            unscaled(odds(b), unit, lower),
            unit,
            steps.last(),
        );
    }
}

/// The transform is linear: where the scalar's arithmetic lets sums pass,
/// the transform of a sample-wise sum of two sequences is the sample-wise
/// sum of their transforms.
pub proof fn lemma_transform_of_sum<F: Scalar>(
    a: Seq<Complex<F>>,
    b: Seq<Complex<F>>,
    tw: Twiddles<F>,
)
    requires
        sums_pass::<F>(),
        a.len() == tw.length(),
        b.len() == tw.length(),
    ensures
        spectrum(sum_of(a, b), tw) == sum_of(spectrum(a, tw), spectrum(b, tw)),
{
    lemma_unscaled_of_sum(a, b, tw.unit, tw.steps@);
    lemma_unscaled_len(a, tw.unit, tw.steps@);
    lemma_unscaled_len(b, tw.unit, tw.steps@);
    assert(spectrum(sum_of(a, b), tw) =~= sum_of(spectrum(a, tw), spectrum(b, tw)));
}

} // verus!
