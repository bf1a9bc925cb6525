use polyroots::complex::Complex;
use polyroots::ieee::is_finite;
use polyroots::polynomial::Polynomial;
use polyroots::unit::Op;

fn unit(op: Op, a: u64, b: u64) -> u64 {
    let x = f64::from_bits(a);
    let y = f64::from_bits(b);
    let r = match op {
        Op::Add => x + y,
        Op::Sub => x - y,
        Op::Mul => x * y,
        Op::Div => x / y,
    };
    r.to_bits()
}

fn c(re: f64, im: f64) -> Complex {
    Complex::new(re.to_bits(), im.to_bits())
}

fn parts(z: Complex) -> (f64, f64) {
    (f64::from_bits(z.re), f64::from_bits(z.im))
}

fn poly(coefficients: &[(f64, f64)]) -> Polynomial {
    Polynomial { coefficients: coefficients.iter().map(|&(re, im)| c(re, im)).collect() }
}

fn reals(coefficients: &[f64]) -> Polynomial {
    Polynomial { coefficients: coefficients.iter().map(|&re| c(re, 0.0)).collect() }
}

fn listed(p: &Polynomial) -> Vec<(f64, f64)> {
    p.coefficients.iter().map(|&z| parts(z)).collect()
}

#[test]
fn new_and_default_are_empty() {
    assert_eq!(Polynomial::new().length(), 0);
    assert_eq!(Polynomial::default().length(), 0);
    assert_eq!(Polynomial::new().degree(), 0);
}

#[test]
fn degree_of_the_empty_sequence_is_zero() {
    assert_eq!(reals(&[]).degree(), 0);
}

#[test]
fn degree_of_all_zeros_after_trimming_is_zero() {
    let mut p = reals(&[0.0, 0.0, 0.0]);
    assert_eq!(p.degree(), 2);
    p.trim0s();
    assert_eq!(p.length(), 0);
    assert_eq!(p.degree(), 0);
}

#[test]
fn degree_is_one_less_than_the_length() {
    assert_eq!(reals(&[1.0, 0.0, 3.0]).degree(), 2);
    assert_eq!(reals(&[7.0]).degree(), 0);
    assert_eq!(reals(&[0.0, 1.0]).degree(), 1);
}

#[test]
fn add0s_pads_with_zeros_and_never_truncates() {
    let mut p = reals(&[1.0, 2.0]);
    p.add0s(5);
    assert_eq!(listed(&p), vec![(1.0, 0.0), (2.0, 0.0), (0.0, 0.0), (0.0, 0.0), (0.0, 0.0)]);
    assert_eq!(p.coefficients[4].re, 0);
    assert_eq!(p.coefficients[4].im, 0);
    p.add0s(3);
    assert_eq!(p.length(), 5);
    p.add0s(5);
    assert_eq!(p.length(), 5);
    p.add0s(0);
    assert_eq!(p.length(), 5);
    let mut e = Polynomial::new();
    e.add0s(1);
    assert_eq!(listed(&e), vec![(0.0, 0.0)]);
}

#[test]
fn add0s_then_trim0s_on_zeros_returns_to_empty() {
    for start in [0usize, 1, 4] {
        for n in [0usize, 1, 3, 10] {
            let mut p = Polynomial { coefficients: vec![c(0.0, 0.0); start] };
            p.add0s(n);
            assert_eq!(p.length(), start.max(n));
            p.trim0s();
            assert_eq!(p.length(), 0);
        }
    }
}

#[test]
fn trim0s_stops_at_the_last_coefficient_that_is_not_zero() {
    let mut p = poly(&[(0.0, 0.0), (1.0, 0.0), (0.0, 0.0), (0.0, 2.0), (0.0, 0.0), (0.0, 0.0)]);
    p.trim0s();
    assert_eq!(listed(&p), vec![(0.0, 0.0), (1.0, 0.0), (0.0, 0.0), (0.0, 2.0)]);
    p.trim0s();
    assert_eq!(p.length(), 4);
}

#[test]
fn trim0s_removes_negative_zeros_and_keeps_a_nan() {
    let mut p = poly(&[(1.0, 0.0), (-0.0, 0.0), (0.0, -0.0)]);
    p.trim0s();
    assert_eq!(listed(&p), vec![(1.0, 0.0)]);
    let mut q = poly(&[(1.0, 0.0), (f64::NAN, 0.0)]);
    q.trim0s();
    assert_eq!(q.length(), 2);
    let mut s = poly(&[(1.0, 0.0), (0.0, 5e-324)]);
    s.trim0s();
    assert_eq!(s.length(), 2);
}

#[test]
fn value_at_of_a_constant_is_the_constant_everywhere() {
    for k in [(3.0, 4.0), (-2.5, 0.0), (0.0, 0.0), (1e-300, -1e300)] {
        let p = poly(&[k]);
        for x in [(0.0, 0.0), (1.0, 0.0), (-7.0, 2.0), (1e200, 1e200), (f64::NAN, f64::INFINITY)] {
            assert_eq!(parts(p.value_at(c(x.0, x.1), &unit)), k);
        }
    }
}

#[test]
fn value_at_of_the_empty_polynomial_is_zero() {
    let v = Polynomial::new().value_at(c(3.0, 4.0), &unit);
    assert_eq!((v.re, v.im), (0, 0));
}

#[test]
fn value_at_accumulates_from_the_lowest_power() {
    let p = poly(&[(3.0, 4.0), (1.0, -2.0), (0.5, 0.25)]);
    assert_eq!(parts(p.value_at(c(2.0, -1.0), &unit)), (5.5, -2.25));
    let q = reals(&[-1.0, 0.0, 1.0]);
    assert_eq!(parts(q.value_at(c(1.0, 0.0), &unit)), (0.0, 0.0));
    assert_eq!(parts(q.value_at(c(0.0, 1.0), &unit)), (-2.0, 0.0));
    assert_eq!(parts(q.value_at(c(3.0, 0.0), &unit)), (8.0, 0.0));
}

#[test]
fn value_at_keeps_the_order_of_its_additions() {
    // 0.1 + 0.2 + 0.3 from the left is not 0.1 + (0.2 + 0.3)
    let p = reals(&[0.1, 0.2, 0.3]);
    let v = p.value_at(c(1.0, 0.0), &unit);
    assert_eq!(f64::from_bits(v.re), ((0.0 + 0.1) + 0.2) + 0.3);
    assert_eq!(v.re, 0x3FE3_3333_3333_3334);
}

#[test]
fn value_at_asks_for_each_term_then_each_power() {
    // a unit that records nothing but counts through its answers
    let tally = |op: Op, a: u64, b: u64| -> u64 {
        match op {
            Op::Add => a + b,
            Op::Sub => a + 2 * b,
            Op::Mul => 3 * a + b,
            Op::Div => 0,
        }
    };
    let p = Polynomial { coefficients: vec![Complex::new(1, 2)] };
    let v = p.value_at(Complex::new(5, 7), &tally);
    // the power starts at the pattern of 1.0 and 0; term = power * coefficient
    let one = 0x3FF0_0000_0000_0000u64;
    let rr = 3 * one + 1;
    let ii = 2;
    let ri = 3 * one + 2;
    let ir = 1;
    assert_eq!((v.re, v.im), (rr + 2 * ii, ri + ir));
}

#[test]
fn horner_divides_by_a_known_root() {
    let mut p = reals(&[6.0, -5.0, 1.0]);
    let r = p.horner(c(2.0, 0.0), &unit);
    assert_eq!((r.re, r.im), (0, 0));
    assert_eq!(listed(&p), vec![(-3.0, 0.0), (1.0, 0.0)]);
    p.horner(c(3.0, 0.0), &unit);
    assert_eq!(listed(&p), vec![(1.0, 0.0)]);
    p.horner(c(9.0, 9.0), &unit);
    assert_eq!(p.length(), 0);
    p.horner(c(9.0, 9.0), &unit);
    assert_eq!(p.length(), 0);
}

#[test]
fn horner_with_a_complex_root() {
    // X² + 1 = (X − i)(X + i)
    let mut p = reals(&[1.0, 0.0, 1.0]);
    p.horner(c(0.0, 1.0), &unit);
    assert_eq!(listed(&p), vec![(0.0, 1.0), (1.0, 0.0)]);
}

#[test]
fn horner_drops_the_remainder_of_an_inexact_root() {
    // (X² − 1) / (X − 2) = X + 2, remainder 3
    let mut p = reals(&[-1.0, 0.0, 1.0]);
    p.horner(c(2.0, 0.0), &unit);
    assert_eq!(listed(&p), vec![(2.0, 0.0), (1.0, 0.0)]);
}

#[test]
fn horner_shortens_by_one_and_stays_finite() {
    let mut p = poly(&[(1.0, 2.0), (-3.0, 0.5), (0.25, 0.0), (7.0, -7.0), (1.0, 0.0)]);
    let mut n = p.length();
    for root in [(1.5, -0.5), (0.0, 0.0), (-2.0, 3.0), (1e10, 1e-10)] {
        p.horner(c(root.0, root.1), &unit);
        assert_eq!(p.length(), n - 1);
        n -= 1;
        for z in &p.coefficients {
            assert!(is_finite(z.re) && is_finite(z.im));
        }
    }
}
