//! Energy: the unitary transform keeps the sum of the squared magnitudes.
use crate::complex::{Complex, Scalar};
use crate::exact::{lemma_norm_of_product, read, respects};
use crate::reals::{
    lemma_real_doubling, lemma_real_interchange, lemma_real_product, lemma_real_squares,
    lemma_real_unit,
};
use crate::spectrum::{butterfly, evens, lemma_unscaled_len, odds, rotation, spectrum, unscaled, Twiddles};
use vstd::arithmetic::power2::{lemma2_to64, lemma_pow2_unfold, pow2};
use vstd::prelude::*;

verus! {

/// The sum of the squared magnitudes of all samples, under the reading
/// `val`.
pub open spec fn energy<F: Scalar>(val: spec_fn(F) -> real, s: Seq<Complex<F>>) -> real
    decreases s.len(),
{
    if s.len() == 0 {
        0real
    } else {
        energy(val, s.drop_last()) + read(val, s.last()).norm()
    }
}

/// The table is that of a unitary transform under the reading `val`: the
/// unit and every step lie on the unit circle, and the squared scale times
/// the length is one.
pub open spec fn unitary<F: Scalar>(val: spec_fn(F) -> real, tw: Twiddles<F>) -> bool {
    &&& read(val, tw.unit).norm() == 1real
    &&& forall|j: int| 0 <= j < tw.steps@.len() ==> read(val, #[trigger] tw.steps@[j]).norm() == 1real
    &&& val(tw.scale) * val(tw.scale) * (tw.length() as real) == 1real
}

/// Every rotation factor lies on the unit circle when the unit and the step
/// do.
proof fn lemma_rotation_norm<F: Scalar>(
    val: spec_fn(F) -> real,
    unit: Complex<F>,
    step: Complex<F>,
    i: nat,
)
    requires
        respects(val),
        read(val, unit).norm() == 1real,
        read(val, step).norm() == 1real,
    ensures
        read(val, rotation(unit, step, i)).norm() == 1real,
    decreases i,
{
    if i > 0 {
        let before = rotation(unit, step, (i - 1) as nat);
        lemma_rotation_norm(val, unit, step, (i - 1) as nat);
        lemma_norm_of_product(read(val, before), read(val, step));
        assert(read(val, before.times(step)) == read(val, before).times(read(val, step)));
    }
}

/// One butterfly doubles the energy of its two inputs: with `q` the rotated
/// odd sample, `|e + q|^2 + |e - q|^2` is `2 * (|e|^2 + |o|^2)`.
proof fn lemma_one_butterfly<F: Scalar>(
    val: spec_fn(F) -> real,
    e: Complex<F>,
    o: Complex<F>,
    w: Complex<F>,
)
    requires
        respects(val),
        read(val, w).norm() == 1real,
    ensures
        read(val, e.plus(w.times(o))).norm() + read(val, e.minus(w.times(o))).norm() == 2real * (
        read(val, e).norm() + read(val, o).norm()),
{
    let q = w.times(o);
    lemma_norm_of_product(read(val, w), read(val, o));
    assert(read(val, q) == read(val, w).times(read(val, o)));
    lemma_real_unit(read(val, w).norm(), read(val, o).norm());
    lemma_real_squares(val(e.real), val(q.real));
    lemma_real_squares(val(e.imag), val(q.imag));
}

/// The energy of a sequence is that of its two parts.
proof fn lemma_energy_of_parts<F: Scalar>(
    val: spec_fn(F) -> real,
    x: Seq<Complex<F>>,
    y: Seq<Complex<F>>,
)
    ensures
        energy(val, x + y) == energy(val, x) + energy(val, y),
    decreases y.len(),
{
    if y.len() == 0 {
        assert(x + y =~= x);
    } else {
        assert((x + y).drop_last() =~= x + y.drop_last());
        lemma_energy_of_parts(val, x, y.drop_last());
    }
}

/// The energy of a sequence of even length is that of its even samples plus
/// that of its odd samples.
proof fn lemma_energy_of_halves<F: Scalar>(val: spec_fn(F) -> real, s: Seq<Complex<F>>)
    requires
        s.len() % 2 == 0,
    ensures
        energy(val, s) == energy(val, evens(s)) + energy(val, odds(s)),
    decreases s.len(),
{
    if s.len() > 0 {
        let t = s.drop_last().drop_last();
        lemma_energy_of_halves(val, t);
        assert(evens(s).drop_last() =~= evens(t));
        assert(odds(s).drop_last() =~= odds(t));
        assert(evens(s).last() == s[s.len() - 2]);
        assert(odds(s).last() == s[s.len() - 1]);
        assert(s.drop_last().last() == s[s.len() - 2]);
        assert(energy(val, s.drop_last()) == energy(val, t) + read(val, s[s.len() - 2]).norm());
        assert(energy(val, s) == energy(val, s.drop_last()) + read(val, s[s.len() - 1]).norm());
    }
}

/// The first `m` butterflies of a block: the sums in `0`, the differences
/// in `1`.
spec fn partial_butterfly<F: Scalar>(
    even: Seq<Complex<F>>,
    odd: Seq<Complex<F>>,
    unit: Complex<F>,
    step: Complex<F>,
    m: nat,
) -> (Seq<Complex<F>>, Seq<Complex<F>>) {
    (
        Seq::new(m, |i: int| even[i].plus(rotation(unit, step, i as nat).times(odd[i]))),
        Seq::new(m, |i: int| even[i].minus(rotation(unit, step, i as nat).times(odd[i]))),
    )
}

proof fn lemma_partial_butterfly_energy<F: Scalar>(
    val: spec_fn(F) -> real,
    even: Seq<Complex<F>>,
    odd: Seq<Complex<F>>,
    unit: Complex<F>,
    step: Complex<F>,
    m: nat,
)
    requires
        respects(val),
        read(val, unit).norm() == 1real,
        read(val, step).norm() == 1real,
        m <= even.len(),
        even.len() == odd.len(),
    ensures
        ({
            let (sums, differences) = partial_butterfly(even, odd, unit, step, m);
            energy(val, sums) + energy(val, differences) == 2real * (energy(
                val,
                even.take(m as int),
            ) + energy(val, odd.take(m as int)))
        }),
    decreases m,
{
    let (sums, differences) = partial_butterfly(even, odd, unit, step, m);
    if m == 0 {
        assert(even.take(0) =~= Seq::empty());
        assert(odd.take(0) =~= Seq::empty());
    } else {
        let k = (m - 1) as nat;
        let (sums0, differences0) = partial_butterfly(even, odd, unit, step, k);
        lemma_partial_butterfly_energy(val, even, odd, unit, step, k);
        assert(sums.drop_last() =~= sums0);
        assert(differences.drop_last() =~= differences0);
        assert(even.take(m as int).drop_last() =~= even.take(k as int));
        assert(odd.take(m as int).drop_last() =~= odd.take(k as int));
        lemma_rotation_norm(val, unit, step, k);
        lemma_one_butterfly(val, even[k as int], odd[k as int], rotation(unit, step, k));
    }
}

/// Combining two halves doubles their joint energy.
proof fn lemma_butterfly_energy<F: Scalar>(
    val: spec_fn(F) -> real,
    even: Seq<Complex<F>>,
    odd: Seq<Complex<F>>,
    unit: Complex<F>,
    step: Complex<F>,
)
    requires
        respects(val),
        read(val, unit).norm() == 1real,
        read(val, step).norm() == 1real,
        even.len() == odd.len(),
    ensures
        energy(val, butterfly(even, odd, unit, step)) == 2real * (energy(val, even) + energy(
            val,
            odd,
        )),
{
    let (sums, differences) = partial_butterfly(even, odd, unit, step, even.len());
    lemma_partial_butterfly_energy(val, even, odd, unit, step, even.len());
    assert(even.take(even.len() as int) =~= even);
    assert(odd.take(odd.len() as int) =~= odd);
    assert(butterfly(even, odd, unit, step) =~= sums + differences);
    lemma_energy_of_parts(val, sums, differences);
}

/// Before scaling, the transform multiplies the energy by the length.
pub proof fn lemma_unscaled_energy<F: Scalar>(
    val: spec_fn(F) -> real,
    s: Seq<Complex<F>>,
    unit: Complex<F>,
    steps: Seq<Complex<F>>,
)
    requires
        respects(val),
        read(val, unit).norm() == 1real,
        forall|j: int| 0 <= j < steps.len() ==> read(val, #[trigger] steps[j]).norm() == 1real,
        s.len() == pow2(steps.len()),
    ensures
        energy(val, unscaled(s, unit, steps)) == (s.len() as real) * energy(val, s),
    decreases steps.len(),
{
    let whole = pow2(steps.len()) as real;
    if steps.len() == 0 {
        lemma2_to64();
        lemma_real_unit(whole, energy(val, s));
    } else {
        let lower = steps.drop_last();
        let half = pow2(lower.len()) as real;
        lemma_pow2_unfold(steps.len());
        lemma_unscaled_energy(val, evens(s), unit, lower);
        lemma_unscaled_energy(val, odds(s), unit, lower);
        lemma_unscaled_len(evens(s), unit, lower);
        lemma_unscaled_len(odds(s), unit, lower);
        lemma_butterfly_energy(
            val,
            unscaled(evens(s), unit, lower),
            unscaled(odds(s), unit, lower),
            unit,
            steps.last(),
        );
        lemma_energy_of_halves(val, s);
        lemma_real_product(half, energy(val, evens(s)), energy(val, odds(s)));
        lemma_real_doubling(whole, half, energy(val, s));
    }
}

/// Scaling every sample multiplies the energy by the square of the scale.
pub proof fn lemma_scaled_energy<F: Scalar>(val: spec_fn(F) -> real, s: Seq<Complex<F>>, scale: F)
    requires
        respects(val),
    ensures
        energy(val, s.map_values(|c: Complex<F>| c.scaled(scale))) == (val(scale) * val(scale))
            * energy(val, s),
    decreases s.len(),
{
    let scaled = s.map_values(|c: Complex<F>| c.scaled(scale));
    let v = val(scale);
    if s.len() == 0 {
        lemma_real_unit(energy(val, s), v * v);
        lemma_real_product(energy(val, s), v * v, 0real);
    } else {
        let c = s.last();
        assert(scaled.drop_last() =~= s.drop_last().map_values(|c: Complex<F>| c.scaled(scale)));
        lemma_scaled_energy(val, s.drop_last(), scale);
        assert(scaled.last() == c.scaled(scale));
        lemma_real_interchange(val(c.real), v, val(c.real), v);
        lemma_real_interchange(val(c.imag), v, val(c.imag), v);
        lemma_real_product(v * v, val(c.real) * val(c.real), val(c.imag) * val(c.imag));
        lemma_real_product(v * v, energy(val, s.drop_last()), read(val, c).norm());
        lemma_real_product(v * v, val(c.real) * val(c.real), 0real);
        lemma_real_product(v * v, val(c.imag) * val(c.imag), 0real);
    }
}

/// The unitary transform preserves energy: under a reading of the scalars
/// as real numbers that the operators respect, and with a table whose
/// rotations lie on the unit circle and whose squared scale is one over the
/// length, the squared magnitudes of the transform sum to what those of the
/// input sum to.
pub proof fn lemma_energy_preserved<F: Scalar>(
    val: spec_fn(F) -> real,
    s: Seq<Complex<F>>,
    tw: Twiddles<F>,
)
    requires
        respects(val),
        unitary(val, tw),
        s.len() == tw.length(),
    ensures
        energy(val, spectrum(s, tw)) == energy(val, s),
{
    let raw = unscaled(s, tw.unit, tw.steps@);
    let v = val(tw.scale);
    let n = tw.length() as real;
    lemma_unscaled_energy(val, s, tw.unit, tw.steps@);
    lemma_scaled_energy(val, raw, tw.scale);
    lemma_real_product(v * v, n, energy(val, s));
    lemma_real_unit(v * v * n, energy(val, s));
}

} // verus!
