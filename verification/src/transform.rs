//! The transform itself: split, recurse, combine, and one scaling pass.
use crate::complex::{functional, total, Complex, Scalar};
use crate::spectrum::{butterfly, evens, odds, rotation, spectrum, unscaled, Twiddles};
use vstd::arithmetic::power2::{lemma2_to64, lemma_pow2_pos, lemma_pow2_unfold, pow2};
use vstd::prelude::*;

verus! {

/// Copies the samples at the even positions into one vector and those at the
/// odd positions into another.
fn halves<F: Scalar>(arr: &[Complex<F>]) -> (r: (Vec<Complex<F>>, Vec<Complex<F>>))
    ensures
        r.0@ == evens(arr@),
        r.1@ == odds(arr@),
{
    let n = arr.len();
    let half = n / 2;
    let mut a0: Vec<Complex<F>> = Vec::with_capacity(half);
    let mut a1: Vec<Complex<F>> = Vec::with_capacity(half);
    let mut i: usize = 0;
    while i < half
        invariant
            n == arr@.len(),
            half == n / 2,
            i <= half,
            a0@ == evens(arr@).take(i as int),
            a1@ == odds(arr@).take(i as int),
        decreases half - i,
    {
        a0.push(arr[2 * i]);
        a1.push(arr[2 * i + 1]);
        i = i + 1;
        assert(a0@ =~= evens(arr@).take(i as int));
        assert(a1@ =~= odds(arr@).take(i as int));
    }
    assert(a0@ =~= evens(arr@));
    assert(a1@ =~= odds(arr@));
    (a0, a1)
}

/// Writes the butterfly of two transformed halves into `arr`, advancing the
/// rotation factor by one multiplication per position.
fn combine<F: Scalar>(
    arr: &mut [Complex<F>],
    a0: &Vec<Complex<F>>,
    a1: &Vec<Complex<F>>,
    unit: Complex<F>,
    wn: Complex<F>,
)
    requires
        total::<F>(),
        a0@.len() == a1@.len(),
        old(arr)@.len() == 2 * a0@.len(),
    ensures
        final(arr)@.len() == old(arr)@.len(),
        functional::<F>() ==> final(arr)@ == butterfly(a0@, a1@, unit, wn),
{
    let half = a0.len();
    let mut w = unit;
    let mut i: usize = 0;
    while i < half
        invariant
            total::<F>(),
            half == a0@.len(),
            half == a1@.len(),
            arr@.len() == 2 * half,
            i <= half,
            functional::<F>() ==> w == rotation(unit, wn, i as nat),
            functional::<F>() ==> forall|j: int|
                0 <= j < i ==> arr@[j] == #[trigger] butterfly(a0@, a1@, unit, wn)[j],
            functional::<F>() ==> forall|j: int|
                half <= j < half + i ==> arr@[j] == #[trigger] butterfly(a0@, a1@, unit, wn)[j],
        decreases half - i,
    {
        let p = a0[i];
        let q = w * a1[i];
        arr[i] = p + q;
        arr[i + half] = p - q;
        w = w * wn;
        i = i + 1;
    }
    assert(functional::<F>() ==> arr@ =~= butterfly(a0@, a1@, unit, wn));
}

/// Transforms a block of length `2^level` in place, without scaling, with
/// the first `level` steps of the table.
fn transform_block<F: Scalar>(arr: &mut [Complex<F>], tw: &Twiddles<F>, level: usize)
    requires
        total::<F>(),
        level <= tw.steps@.len(),
        old(arr)@.len() == pow2(level as nat),
    ensures
        final(arr)@.len() == old(arr)@.len(),
        functional::<F>() ==> final(arr)@ == unscaled(
            old(arr)@,
            tw.unit,
            tw.steps@.take(level as int),
        ),
    decreases level,
{
    let n = arr.len();
    proof {
        lemma2_to64();
        if level > 0 {
            lemma_pow2_unfold(level as nat);
            lemma_pow2_pos((level - 1) as nat);
        }
    }
    if n == 1 {
        return ;
    }
    let (mut a0, mut a1) = halves(arr);
    transform_block(a0.as_mut_slice(), tw, level - 1);
    transform_block(a1.as_mut_slice(), tw, level - 1);
    proof {
        let steps = tw.steps@.take(level as int);
        assert(steps.drop_last() =~= tw.steps@.take(level - 1));
        assert(steps.last() == tw.steps@[level - 1]);
    }
    combine(arr, &a0, &a1, tw.unit, tw.steps[level - 1]);
}

/// Replaces `arr` by its transform: the blocks are combined level by level
/// as the table's steps direct, and every sample is then multiplied once by
/// the table's scale.
///
/// The length of `arr` is the power of two that the table serves, and the
/// scalar's operators accept every pair of operands. Where those operators
/// are functions of their operands, the result is `spectrum` of the input,
/// sample for sample.
pub fn fft<F: Scalar>(arr: &mut [Complex<F>], tw: &Twiddles<F>)
    requires
        total::<F>(),
        old(arr)@.len() == tw.length(),
    ensures
        final(arr)@.len() == old(arr)@.len(),
        functional::<F>() ==> final(arr)@ == spectrum(old(arr)@, *tw),
{
    transform_block(arr, tw, tw.steps.len());
    assert(tw.steps@.take(tw.steps@.len() as int) =~= tw.steps@);
    let ghost raw = arr@;
    let n = arr.len();
    let mut i: usize = 0;
    while i < n
        invariant
            total::<F>(),
            n == arr@.len(),
            n == raw.len(),
            i <= n,
            functional::<F>() ==> forall|j: int| 0 <= j < i ==> arr@[j] == raw[j].scaled(tw.scale),
            forall|j: int| i <= j < n ==> arr@[j] == raw[j],
        decreases n - i,
    {
        arr[i] = arr[i] * tw.scale;
        i = i + 1;
    }
    assert(functional::<F>() ==> arr@ =~= spectrum(old(arr)@, *tw));
}

} // verus!
