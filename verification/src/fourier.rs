//! The transform against the discrete Fourier sum.
//!
//! Under exact arithmetic, and with a table whose steps are successive
//! square roots of minus one, every bin of the transform is the sum that
//! defines the discrete Fourier transform, times the scale.
use crate::complex::{Complex, Scalar};
use crate::energy::unitary;
use crate::exact::{
    lemma_norm_of_product, lemma_power_adds, lemma_power_of_one, lemma_power_of_power,
    lemma_power_of_square, lemma_times_associates, lemma_times_commutes, lemma_times_distributes,
    lemma_times_minus_one, read, respects, Exact,
};
use crate::reals::lemma_real_unit_square;
use crate::spectrum::{evens, lemma_unscaled_len, odds, rotation, spectrum, unscaled, Twiddles};
use vstd::arithmetic::power2::{lemma2_to64, lemma_pow2_unfold, pow2};
use vstd::prelude::*;

verus! {

/// The first `m` terms of the Fourier sum for bin `k`: the samples
/// `s[0] .. s[m - 1]`, each times `w` to the power of its index times `k`.
pub open spec fn partial_sum<F: Scalar>(
    val: spec_fn(F) -> real,
    s: Seq<Complex<F>>,
    w: Exact,
    k: nat,
    m: nat,
) -> Exact
    decreases m,
{
    if m == 0 {
        Exact::zero()
    } else {
        partial_sum(val, s, w, k, (m - 1) as nat).plus(
            read(val, s[m - 1]).times(w.power(((m - 1) * k) as nat)),
        )
    }
}

/// Bin `k` of the discrete Fourier transform of `s` with the root `w`:
/// the sum over all `j` of `s[j] * w^(j * k)`.
pub open spec fn fourier_sum<F: Scalar>(
    val: spec_fn(F) -> real,
    s: Seq<Complex<F>>,
    w: Exact,
    k: nat,
) -> Exact {
    partial_sum(val, s, w, k, s.len())
}

/// The sum over a sequence falls into the sum over its even samples and
/// `w^k` times the sum over its odd samples, both with the root `w * w`.
proof fn lemma_sum_of_halves<F: Scalar>(
    val: spec_fn(F) -> real,
    s: Seq<Complex<F>>,
    w: Exact,
    k: nat,
    m: nat,
)
    requires
        2 * m <= s.len(),
    ensures
        partial_sum(val, s, w, k, 2 * m) == partial_sum(val, evens(s), w.times(w), k, m).plus(
            w.power(k).times(partial_sum(val, odds(s), w.times(w), k, m)),
        ),
    decreases m,
{
    let ww = w.times(w);
    if m == 0 {
        assert(w.power(k).times(Exact::zero()) == Exact::zero());
    } else {
        let j = (m - 1) as nat;
        let e = (2 * (j * k)) as nat;
        lemma_sum_of_halves(val, s, w, k, j);
        let pe = partial_sum(val, evens(s), ww, k, j);
        let po = partial_sum(val, odds(s), ww, k, j);
        let xe = read(val, s[2 * (j as int)]);
        let xo = read(val, s[2 * (j as int) + 1]);
        let turn = w.power(e);
        assert(evens(s)[j as int] == s[2 * (j as int)]);
        assert(odds(s)[j as int] == s[2 * (j as int) + 1]);
        lemma_power_of_square(w, j * k);
        assert(partial_sum(val, evens(s), ww, k, m) == pe.plus(xe.times(turn)));
        assert(partial_sum(val, odds(s), ww, k, m) == po.plus(xo.times(turn)));
        assert((2 * j) * k == e) by (nonlinear_arith)
            requires
                e == 2 * (j * k),
        ;
        assert((2 * j + 1) * k == k + e) by (nonlinear_arith)
            requires
                e == 2 * (j * k),
        ;
        assert(partial_sum(val, s, w, k, (2 * j + 1) as nat) == partial_sum(
            val,
            s,
            w,
            k,
            2 * j,
        ).plus(xe.times(turn)));
        assert(partial_sum(val, s, w, k, 2 * m) == partial_sum(
            val,
            s,
            w,
            k,
            (2 * j + 1) as nat,
        ).plus(xo.times(w.power(k + e))));
        lemma_times_distributes(w.power(k), po, xo.times(turn));
        lemma_times_associates(w.power(k), xo, turn);
        lemma_times_commutes(w.power(k), xo);
        lemma_times_associates(xo, w.power(k), turn);
        lemma_power_adds(w, k, e);
        assert(w.power(k).times(xo.times(turn)) == xo.times(w.power(k + e)));
        assert(w.power(k).times(po.plus(xo.times(turn))) == w.power(k).times(po).plus(
            xo.times(w.power(k + e)),
        ));
        assert(partial_sum(val, s, w, k, 2 * j) == pe.plus(w.power(k).times(po)));
    }
}

/// Where `w^h` is one, the sum for bin `k + h` is the sum for bin `k`.
proof fn lemma_sum_is_periodic<F: Scalar>(
    val: spec_fn(F) -> real,
    s: Seq<Complex<F>>,
    w: Exact,
    k: nat,
    h: nat,
    m: nat,
)
    requires
        w.power(h) == Exact::one(),
    ensures
        partial_sum(val, s, w, k + h, m) == partial_sum(val, s, w, k, m),
    decreases m,
{
    if m > 0 {
        let j = (m - 1) as nat;
        lemma_sum_is_periodic(val, s, w, k, h, j);
        assert(j * (k + h) == j * k + h * j) by (nonlinear_arith);
        lemma_power_adds(w, j * k, h * j);
        lemma_power_of_power(w, h, j);
        lemma_power_of_one(j);
    }
}

/// The table reads as a tower of roots of unity: the unit is one, the
/// first step is minus one, and every further step is a square root of the
/// step below it.
pub open spec fn root_tower<F: Scalar>(
    val: spec_fn(F) -> real,
    unit: Complex<F>,
    steps: Seq<Complex<F>>,
) -> bool {
    &&& read(val, unit) == Exact::one()
    &&& steps.len() > 0 ==> read(val, steps[0]) == Exact::minus_one()
    &&& forall|j: int|
        1 <= j < steps.len() ==> read(val, #[trigger] steps[j]).times(read(val, steps[j])) == read(
            val,
            steps[j - 1],
        )
}

/// The root of unity that the table's last step reads as: the root of the
/// Fourier sum that the whole transform computes. With no step it is one.
pub open spec fn principal_root<F: Scalar>(val: spec_fn(F) -> real, steps: Seq<Complex<F>>) -> Exact {
    if steps.len() == 0 {
        Exact::one()
    } else {
        read(val, steps.last())
    }
}

/// The rotation factor at position `i` reads as the `i`-th power of the
/// step.
proof fn lemma_rotation_is_power<F: Scalar>(
    val: spec_fn(F) -> real,
    unit: Complex<F>,
    step: Complex<F>,
    i: nat,
)
    requires
        respects(val),
        read(val, unit) == Exact::one(),
    ensures
        read(val, rotation(unit, step, i)) == read(val, step).power(i),
    decreases i,
{
    if i > 0 {
        lemma_rotation_is_power(val, unit, step, (i - 1) as nat);
    }
}

/// Step `j` of a tower, raised to the power `2^j`, is minus one.
proof fn lemma_tower_reaches_minus_one<F: Scalar>(
    val: spec_fn(F) -> real,
    unit: Complex<F>,
    steps: Seq<Complex<F>>,
    j: int,
)
    requires
        root_tower(val, unit, steps),
        0 <= j < steps.len(),
    ensures
        read(val, steps[j]).power(pow2(j as nat)) == Exact::minus_one(),
    decreases j,
{
    let w = read(val, steps[j]);
    if j == 0 {
        lemma2_to64();
        reveal_with_fuel(Exact::power, 2);
        assert(w.power(1) == Exact::one().times(w));
    } else {
        lemma_tower_reaches_minus_one(val, unit, steps, j - 1);
        lemma_pow2_unfold(j as nat);
        lemma_power_of_square(w, pow2((j - 1) as nat));
    }
}

/// Before scaling, bin `i` of the transform reads as the Fourier sum for
/// bin `i` with the table's principal root.
proof fn lemma_unscaled_is_fourier_sum<F: Scalar>(
    val: spec_fn(F) -> real,
    s: Seq<Complex<F>>,
    unit: Complex<F>,
    steps: Seq<Complex<F>>,
    i: int,
)
    requires
        respects(val),
        root_tower(val, unit, steps),
        s.len() == pow2(steps.len()),
        0 <= i < s.len(),
    ensures
        read(val, unscaled(s, unit, steps)[i]) == fourier_sum(
            val,
            s,
            principal_root(val, steps),
            i as nat,
        ),
    decreases steps.len(),
{
    if steps.len() == 0 {
        lemma2_to64();
        reveal_with_fuel(partial_sum, 2);
        assert(Exact::one().power(0) == Exact::one());
        assert(0 * i == 0);
    } else {
        let lower = steps.drop_last();
        let w = read(val, steps.last());
        let ww = principal_root(val, lower);
        let last = steps.len() - 1;
        lemma_pow2_unfold(steps.len());
        let h = pow2(lower.len());
        let j = if i < h { i } else { i - h };
        let even = unscaled(evens(s), unit, lower);
        let odd = unscaled(odds(s), unit, lower);
        lemma_unscaled_len(evens(s), unit, lower);
        lemma_unscaled_len(odds(s), unit, lower);
        assert(root_tower(val, unit, lower));
        lemma_unscaled_is_fourier_sum(val, evens(s), unit, lower, j);
        lemma_unscaled_is_fourier_sum(val, odds(s), unit, lower, j);
        assert(w.times(w) == ww) by {
            if lower.len() == 0 {
                assert(steps.last() == steps[0]);
            } else {
                assert(steps.last() == steps[last]);
                assert(lower.last() == steps[last - 1]);
            }
        }
        lemma_rotation_is_power(val, unit, steps.last(), j as nat);
        lemma_sum_of_halves(val, s, w, i as nat, h);
        let sum_even = partial_sum(val, evens(s), ww, j as nat, h);
        let sum_odd = partial_sum(val, odds(s), ww, j as nat, h);
        assert(read(val, even[j]) == sum_even);
        assert(read(val, odd[j]) == sum_odd);
        let rot = rotation(unit, steps.last(), j as nat);
        assert(read(val, rot.times(odd[j])) == w.power(j as nat).times(sum_odd));
        if i < h {
            assert(unscaled(s, unit, steps)[i] == even[j].plus(rot.times(odd[j])));
        } else {
            assert(unscaled(s, unit, steps)[i] == even[j].minus(rot.times(odd[j])));
            lemma_tower_reaches_minus_one(val, unit, steps, last);
            assert(w.power(h) == Exact::minus_one());
            lemma_power_of_square(w, h);
            lemma_power_adds(w, h, h);
            assert(ww.power(h) == Exact::one());
            lemma_sum_is_periodic(val, evens(s), ww, j as nat, h, h);
            lemma_sum_is_periodic(val, odds(s), ww, j as nat, h, h);
            lemma_power_adds(w, j as nat, h);
            let turned = w.power(j as nat);
            assert(w.power(i as nat) == turned.times(Exact::minus_one()));
            lemma_times_minus_one(turned, sum_odd);
            assert(w.power(i as nat).times(sum_odd) == Exact::zero().minus(turned.times(sum_odd)));
        }
    }
}

/// Under exact arithmetic and with a table that reads as a tower of roots
/// of unity, bin `i` of the transform is the discrete Fourier sum for bin
/// `i`, taken with the table's principal root `w`: the sum over all `j` of
/// `s[j] * w^(i * j)`, times the scale.
pub proof fn lemma_spectrum_is_fourier_sum<F: Scalar>(
    val: spec_fn(F) -> real,
    s: Seq<Complex<F>>,
    tw: Twiddles<F>,
    i: int,
)
    requires
        respects(val),
        root_tower(val, tw.unit, tw.steps@),
        s.len() == tw.length(),
        0 <= i < s.len(),
    ensures
        read(val, spectrum(s, tw)[i]) == fourier_sum(
            val,
            s,
            principal_root(val, tw.steps@),
            i as nat,
        ).scaled(val(tw.scale)),
{
    lemma_unscaled_len(s, tw.unit, tw.steps@);
    lemma_unscaled_is_fourier_sum(val, s, tw.unit, tw.steps@, i);
}

/// A tower of roots of unity lies on the unit circle: with a scale whose
/// square is one over the length, its table is that of a unitary transform.
pub proof fn lemma_tower_is_unitary<F: Scalar>(val: spec_fn(F) -> real, tw: Twiddles<F>)
    requires
        root_tower(val, tw.unit, tw.steps@),
        val(tw.scale) * val(tw.scale) * (tw.length() as real) == 1real,
    ensures
        unitary(val, tw),
{
    assert forall|j: int| 0 <= j < tw.steps@.len() implies read(val, #[trigger] tw.steps@[j]).norm()
        == 1real by {
        lemma_tower_norm(val, tw.unit, tw.steps@, j);
    }
}

/// Every step of a tower has magnitude one.
proof fn lemma_tower_norm<F: Scalar>(
    val: spec_fn(F) -> real,
    unit: Complex<F>,
    steps: Seq<Complex<F>>,
    j: int,
)
    requires
        root_tower(val, unit, steps),
        0 <= j < steps.len(),
    ensures
        read(val, steps[j]).norm() == 1real,
    decreases j,
{
    if j > 0 {
        let w = read(val, steps[j]);
        lemma_tower_norm(val, unit, steps, j - 1);
        lemma_norm_of_product(w, w);
        lemma_real_unit_square(w.re, w.im);
    }
}

} // verus!
