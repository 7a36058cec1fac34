use fft::Complex;

#[test]
fn new_keeps_both_components() {
    let c = Complex::new(1.5, -2.25);
    assert_eq!(c.real, 1.5);
    assert_eq!(c.imag, -2.25);
}

#[test]
fn sum_is_component_wise() {
    let a = Complex::new(1.5, -2.0);
    let b = Complex::new(0.25, 4.0);
    assert_eq!(a + b, Complex::new(1.75, 2.0));
}

#[test]
fn difference_is_component_wise() {
    let a = Complex::new(1.5, -2.0);
    let b = Complex::new(0.25, 4.0);
    assert_eq!(a - b, Complex::new(1.25, -6.0));
}

#[test]
fn product_follows_the_textbook_formula() {
    let a = Complex::new(1.0, 2.0);
    let b = Complex::new(3.0, 4.0);
    assert_eq!(a * b, Complex::new(-5.0, 10.0));
}

#[test]
fn product_with_the_imaginary_unit_turns_by_a_quarter() {
    let i = Complex::new(0.0, 1.0);
    assert_eq!(i * i, Complex::new(-1.0, 0.0));
    assert_eq!(Complex::new(2.0, 3.0) * i, Complex::new(-3.0, 2.0));
}

#[test]
fn scaling_multiplies_both_components() {
    let a = Complex::new(3.0, -8.0);
    assert_eq!(a * 0.5, Complex::new(1.5, -4.0));
}

#[test]
fn operands_are_left_untouched() {
    let a = Complex::new(1.0, 2.0);
    let b = Complex::new(3.0, 4.0);
    let _ = a + b;
    let _ = a - b;
    let _ = a * b;
    let _ = a * 2.0;
    assert_eq!(a, Complex::new(1.0, 2.0));
    assert_eq!(b, Complex::new(3.0, 4.0));
}

#[test]
fn equality_is_exact_and_component_wise() {
    assert_eq!(Complex::new(1.0, 2.0), Complex::new(1.0, 2.0));
    assert_ne!(Complex::new(1.0, 2.0), Complex::new(1.0, 2.0000000000000004));
    assert_ne!(Complex::new(1.0, 2.0), Complex::new(2.0, 1.0));
}

#[test]
fn integer_components_work_too() {
    let a: Complex<i64> = Complex::new(2, 3);
    let b: Complex<i64> = Complex::new(-1, 4);
    assert_eq!(a + b, Complex::new(1, 7));
    assert_eq!(a - b, Complex::new(3, -1));
    assert_eq!(a * b, Complex::new(-14, 5));
    assert_eq!(a * 3, Complex::new(6, 9));
}
