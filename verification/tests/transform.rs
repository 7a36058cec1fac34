use fft::{fft, levels_for, Complex, Twiddles};
use std::f64::consts::PI;

/// The table of the unitary transform for sequences of length `n`.
fn unitary(n: usize) -> Twiddles<f64> {
    let levels = levels_for(n).expect("the length is a power of two");
    let mut steps = Vec::with_capacity(levels);
    for j in 0..levels {
        let ang = -2.0 * PI / (1usize << (j + 1)) as f64;
        steps.push(Complex::new(ang.cos(), ang.sin()));
    }
    Twiddles::new(Complex::new(1.0, 0.0), steps, 1.0 / (n as f64).sqrt())
}

fn transformed(input: &[Complex<f64>]) -> Vec<Complex<f64>> {
    let mut out = input.to_vec();
    fft(&mut out, &unitary(input.len()));
    out
}

/// The unitary transform by its defining sum, one bin at a time.
fn direct_sum(input: &[Complex<f64>]) -> Vec<Complex<f64>> {
    let n = input.len();
    let mut out = Vec::with_capacity(n);
    for k in 0..n {
        let mut acc = Complex::new(0.0, 0.0);
        for (j, x) in input.iter().enumerate() {
            let ang = -2.0 * PI * ((j * k) % n) as f64 / n as f64;
            acc = acc + *x * Complex::new(ang.cos(), ang.sin());
        }
        out.push(acc * (1.0 / (n as f64).sqrt()));
    }
    out
}

/// The same butterflies written out for doubles alone, with the cosine and
/// the sine taken afresh in every block.
fn by_recursion(block: &[Complex<f64>]) -> Vec<Complex<f64>> {
    let n = block.len();
    if n == 1 {
        return block.to_vec();
    }
    let even: Vec<Complex<f64>> = block.iter().step_by(2).copied().collect();
    let odd: Vec<Complex<f64>> = block.iter().skip(1).step_by(2).copied().collect();
    let even = by_recursion(&even);
    let odd = by_recursion(&odd);
    let ang = -2.0 * PI / n as f64;
    let (wn_re, wn_im) = (ang.cos(), ang.sin());
    let (mut w_re, mut w_im) = (1.0f64, 0.0f64);
    let mut out = vec![Complex::new(0.0, 0.0); n];
    for i in 0..n / 2 {
        let q_re = w_re * odd[i].real - w_im * odd[i].imag;
        let q_im = w_re * odd[i].imag + w_im * odd[i].real;
        out[i] = Complex::new(even[i].real + q_re, even[i].imag + q_im);
        out[i + n / 2] = Complex::new(even[i].real - q_re, even[i].imag - q_im);
        let next_re = w_re * wn_re - w_im * wn_im;
        let next_im = w_re * wn_im + w_im * wn_re;
        w_re = next_re;
        w_im = next_im;
    }
    out
}

fn energy(s: &[Complex<f64>]) -> f64 {
    s.iter().map(|c| c.real * c.real + c.imag * c.imag).sum()
}

fn signal(n: usize) -> Vec<Complex<f64>> {
    (0..n)
        .map(|i| {
            let t = i as f64;
            Complex::new((0.37 * t).sin() + 0.5 * t, (1.3 * t).cos() - 0.125 * t * t)
        })
        .collect()
}

fn assert_close(a: &[Complex<f64>], b: &[Complex<f64>], tol: f64) {
    assert_eq!(a.len(), b.len());
    for (x, y) in a.iter().zip(b.iter()) {
        assert!((x.real - y.real).abs() <= tol, "{:?} is not close to {:?}", x, y);
        assert!((x.imag - y.imag).abs() <= tol, "{:?} is not close to {:?}", x, y);
    }
}

#[test]
fn single_sample_is_returned_unchanged() {
    let mut one = vec![Complex::new(3.5, -2.0)];
    fft(&mut one, &unitary(1));
    assert_eq!(one, vec![Complex::new(3.5, -2.0)]);
}

#[test]
fn single_sample_is_scaled_and_nothing_else() {
    let tw = Twiddles::new(Complex::new(1.0, 0.0), Vec::new(), 3.0);
    let mut one = vec![Complex::new(3.5, -2.0)];
    fft(&mut one, &tw);
    assert_eq!(one, vec![Complex::new(10.5, -6.0)]);
}

#[test]
fn table_keeps_its_parts() {
    let steps = vec![Complex::new(-1.0, 0.0), Complex::new(0.0, -1.0)];
    let tw = Twiddles::new(Complex::new(1.0, 0.0), steps.clone(), 0.5);
    assert_eq!(tw.unit, Complex::new(1.0, 0.0));
    assert_eq!(tw.steps, steps);
    assert_eq!(tw.scale, 0.5);
    assert_eq!(tw.clone(), tw);
}

#[test]
fn unitary_table_lies_on_the_unit_circle() {
    let tw = unitary(1024);
    assert_eq!(tw.steps.len(), 10);
    assert_eq!(tw.steps[0].real, -1.0);
    for w in tw.steps.iter() {
        assert!((w.real * w.real + w.imag * w.imag - 1.0).abs() <= 1e-15);
    }
    assert_eq!(tw.scale, 1.0 / 32.0);
}

#[test]
fn constant_signal_has_all_energy_in_the_first_bin() {
    let out = transformed(&[Complex::new(1.0, 0.0); 4]);
    assert_eq!(
        out,
        vec![
            Complex::new(2.0, 0.0),
            Complex::new(0.0, 0.0),
            Complex::new(0.0, 0.0),
            Complex::new(0.0, 0.0),
        ]
    );
}

#[test]
fn impulse_has_a_flat_spectrum() {
    let out = transformed(&[
        Complex::new(1.0, 0.0),
        Complex::new(0.0, 0.0),
        Complex::new(0.0, 0.0),
        Complex::new(0.0, 0.0),
    ]);
    assert_eq!(out, vec![Complex::new(0.5, 0.0); 4]);
}

#[test]
fn two_samples_give_scaled_sum_and_difference() {
    let out = transformed(&[Complex::new(3.0, 1.0), Complex::new(1.0, -1.0)]);
    let scale = 1.0 / 2.0f64.sqrt();
    assert_eq!(out[0], Complex::new(4.0 * scale, 0.0 * scale));
    assert_close(&out[1..], &[Complex::new(2.0 * scale, 2.0 * scale)], 1e-15);
}

#[test]
fn scale_is_applied_once_whatever_the_depth() {
    let n = 64;
    let out = transformed(&vec![Complex::new(1.0, 0.0); n]);
    assert_eq!(out[0], Complex::new(8.0, 0.0));
}

#[test]
fn output_is_in_natural_order() {
    // One full turn per block puts the energy into bin 1, not into its
    // bit-reversed place.
    let n = 8;
    let input: Vec<Complex<f64>> = (0..n)
        .map(|j| {
            let ang = 2.0 * PI * j as f64 / n as f64;
            Complex::new(ang.cos(), ang.sin())
        })
        .collect();
    let out = transformed(&input);
    let mut expected = vec![Complex::new(0.0, 0.0); n];
    expected[1] = Complex::new((n as f64).sqrt(), 0.0);
    assert_close(&out, &expected, 1e-12);
}

#[test]
fn agrees_with_the_defining_sum() {
    for n in [1usize, 2, 4, 8, 16, 128] {
        let input = signal(n);
        assert_close(&transformed(&input), &direct_sum(&input), 1e-7);
    }
}

#[test]
fn agrees_bit_for_bit_with_the_butterflies_written_out() {
    for n in [1usize, 2, 4, 8, 64, 1024] {
        let input = signal(n);
        let scale = 1.0 / (n as f64).sqrt();
        let expected: Vec<Complex<f64>> = by_recursion(&input)
            .iter()
            .map(|c| Complex::new(c.real * scale, c.imag * scale))
            .collect();
        let out = transformed(&input);
        assert_eq!(out.len(), expected.len());
        for (x, y) in out.iter().zip(expected.iter()) {
            assert_eq!(x.real.to_bits(), y.real.to_bits());
            assert_eq!(x.imag.to_bits(), y.imag.to_bits());
        }
    }
}

#[test]
fn transform_is_linear() {
    let n = 32;
    let a = signal(n);
    let b: Vec<Complex<f64>> =
        (0..n).map(|i| Complex::new(1.0 / (1.0 + i as f64), (i % 5) as f64 - 2.0)).collect();
    let sum: Vec<Complex<f64>> = a.iter().zip(b.iter()).map(|(x, y)| *x + *y).collect();
    let ta = transformed(&a);
    let tb = transformed(&b);
    let separately: Vec<Complex<f64>> = ta.iter().zip(tb.iter()).map(|(x, y)| *x + *y).collect();
    assert_close(&transformed(&sum), &separately, 1e-9);
}

#[test]
fn transform_preserves_energy() {
    for n in [1usize, 2, 4, 32, 256] {
        let input = signal(n);
        let before = energy(&input);
        let after = energy(&transformed(&input));
        assert!((before - after).abs() <= 1e-9 * before.max(1.0), "{} vs {}", before, after);
    }
}

#[test]
fn every_sample_is_overwritten() {
    let input = signal(16);
    let out = transformed(&input);
    assert_eq!(out.len(), input.len());
    for (x, y) in input.iter().zip(out.iter()) {
        assert_ne!(x, y);
    }
}

#[test]
fn rotation_is_accumulated_by_repeated_multiplication() {
    // With a step that is not on the unit circle the accumulated factor shows:
    // position 1 of a block of four is rotated by exactly one step.
    let half = Complex::new(0.5, 0.0);
    let tw = Twiddles::new(Complex::new(1.0, 0.0), vec![half, half], 1.0);
    let mut s = vec![
        Complex::new(0.0, 0.0),
        Complex::new(0.0, 0.0),
        Complex::new(0.0, 0.0),
        Complex::new(8.0, 0.0),
    ];
    fft(&mut s, &tw);
    // odd half [0, 8] becomes [8, -8]; the block becomes
    // [0 + 8, 0 + 0.5 * -8, 0 - 8, 0 - 0.5 * -8].
    assert_eq!(
        s,
        vec![
            Complex::new(8.0, 0.0),
            Complex::new(-4.0, 0.0),
            Complex::new(-8.0, 0.0),
            Complex::new(4.0, 0.0),
        ]
    );
}

#[test]
fn gaussian_integers_transform_exactly() {
    // Over the integers the fourth roots of unity are exact: -1 and -i.
    let tw: Twiddles<i64> =
        Twiddles::new(Complex::new(1, 0), vec![Complex::new(-1, 0), Complex::new(0, -1)], 1);
    let mut s: Vec<Complex<i64>> =
        vec![Complex::new(1, 0), Complex::new(2, 0), Complex::new(3, 0), Complex::new(4, 0)];
    fft(&mut s, &tw);
    assert_eq!(
        s,
        vec![Complex::new(10, 0), Complex::new(-2, 2), Complex::new(-2, 0), Complex::new(-2, -2)]
    );
}

#[test]
fn integer_transform_multiplies_energy_by_the_length() {
    let tw: Twiddles<i64> =
        Twiddles::new(Complex::new(1, 0), vec![Complex::new(-1, 0), Complex::new(0, -1)], 1);
    let input: Vec<Complex<i64>> =
        vec![Complex::new(1, -2), Complex::new(0, 5), Complex::new(-7, 3), Complex::new(4, 4)];
    let mut out = input.clone();
    fft(&mut out, &tw);
    let before: i64 = input.iter().map(|c| c.real * c.real + c.imag * c.imag).sum();
    let after: i64 = out.iter().map(|c| c.real * c.real + c.imag * c.imag).sum();
    assert_eq!(before, 120);
    assert_eq!(after, 4 * before);
}

#[test]
fn integer_transform_is_linear_exactly() {
    let tw: Twiddles<i64> =
        Twiddles::new(Complex::new(1, 0), vec![Complex::new(-1, 0), Complex::new(0, -1)], 3);
    let a: Vec<Complex<i64>> =
        vec![Complex::new(1, -2), Complex::new(0, 5), Complex::new(-7, 3), Complex::new(4, 4)];
    let b: Vec<Complex<i64>> =
        vec![Complex::new(9, 1), Complex::new(-3, -3), Complex::new(2, 0), Complex::new(6, -8)];
    let mut sum: Vec<Complex<i64>> = a.iter().zip(b.iter()).map(|(x, y)| *x + *y).collect();
    let mut ta = a.clone();
    let mut tb = b.clone();
    fft(&mut ta, &tw);
    fft(&mut tb, &tw);
    fft(&mut sum, &tw);
    let separately: Vec<Complex<i64>> = ta.iter().zip(tb.iter()).map(|(x, y)| *x + *y).collect();
    assert_eq!(sum, separately);
}
