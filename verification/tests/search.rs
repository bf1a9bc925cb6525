use polyroots::complex::Complex;
use polyroots::extraction::{find_roots, Extraction};
use polyroots::locator::{Reading, Search, FIRST_STEP, ROUNDS};
use polyroots::polynomial::Polynomial;
use polyroots::unit::Op;

fn unit(op: Op, a: u64, b: u64) -> u64 {
    let x = f64::from_bits(a);
    let y = f64::from_bits(b);
    let r = match op {
        Op::Add => x + y,
        Op::Sub => x - y,
        Op::Mul => x * y,
        Op::Div => x / y,
    };
    r.to_bits()
}

fn round(a: u64) -> u64 {
    f64::from_bits(a).round().to_bits()
}

fn c(re: f64, im: f64) -> Complex {
    Complex::new(re.to_bits(), im.to_bits())
}

fn parts(z: Complex) -> (f64, f64) {
    (f64::from_bits(z.re), f64::from_bits(z.im))
}

fn reals(coefficients: &[f64]) -> Polynomial {
    Polynomial { coefficients: coefficients.iter().map(|&re| c(re, 0.0)).collect() }
}

fn listed(v: &[Complex]) -> Vec<(f64, f64)> {
    v.iter().map(|&z| parts(z)).collect()
}

fn reading(point: (f64, f64), value: (f64, f64), norm: f64) -> Reading {
    Reading { point: c(point.0, point.1), value: c(value.0, value.1), norm: norm.to_bits() }
}

fn state(s: &Search) -> ((f64, f64), f64, f64, usize, usize) {
    (parts(s.solution), f64::from_bits(s.step_re), f64::from_bits(s.step_im), s.outer, s.inner)
}

#[test]
fn search_starts_at_zero_with_the_largest_step() {
    let s = Search::new();
    assert_eq!(state(&s), ((0.0, 0.0), 1e20, 1e20, 0, 0));
    assert_eq!(FIRST_STEP, 1e20f64.to_bits());
    assert_eq!(ROUNDS, 150);
    assert!(!s.is_done());
}

#[test]
fn offsets_come_in_the_fixed_order() {
    let mut s = Search::new();
    s.step_re = 4.0f64.to_bits();
    s.step_im = 0.5f64.to_bits();
    assert_eq!(parts(s.offset(0)), (4.0, 0.5));
    assert_eq!(parts(s.offset(1)), (-4.0, 0.5));
    assert_eq!(parts(s.offset(2)), (4.0, -0.5));
    assert_eq!(parts(s.offset(3)), (-4.0, -0.5));
}

#[test]
fn choose_move_takes_the_first_strictly_closer_candidate() {
    let here = reading((0.0, 0.0), (3.0, 0.0), 9.0);
    let far = reading((1.0, 1.0), (4.0, 0.0), 16.0);
    let same = reading((2.0, 2.0), (0.0, 3.0), 9.0);
    let near = reading((3.0, 3.0), (1.0, 0.0), 1.0);
    let nearer = reading((4.0, 4.0), (0.5, 0.0), 0.25);
    let lost = reading((5.0, 5.0), (f64::NAN, 0.0), f64::NAN);
    assert_eq!(Search::choose_move(&here, &[far, same, near, nearer]), Some(2));
    assert_eq!(Search::choose_move(&here, &[nearer, near, far, far]), Some(0));
    assert_eq!(Search::choose_move(&here, &[far, far, far, nearer]), Some(3));
    assert_eq!(Search::choose_move(&here, &[far, near, far, nearer]), Some(1));
    assert_eq!(Search::choose_move(&here, &[far, same, lost, far]), None);
    assert_eq!(Search::choose_move(&lost, &[nearer, near, far, same]), None);
}

#[test]
fn advance_moves_and_halves_the_imaginary_step() {
    let mut s = Search::new();
    let here = reading((0.0, 0.0), (3.0, 0.0), 9.0);
    let far = reading((9.0, 9.0), (4.0, 0.0), 16.0);
    let near = reading((7.0, -7.0), (1.0, 0.0), 1.0);
    s.advance(&here, &[far, far, near, far]);
    assert_eq!(state(&s), ((7.0, -7.0), 1e20, 5e19, 0, 1));
    let here = reading((7.0, -7.0), (1.0, 0.0), 1.0);
    s.advance(&here, &[far, far, far, far]);
    assert_eq!(state(&s), ((7.0, -7.0), 1e20, 2.5e19, 0, 2));
}

#[test]
fn advance_ends_the_round_on_an_exact_zero() {
    let mut s = Search::new();
    let here = reading((0.0, 0.0), (3.0, 0.0), 9.0);
    let far = reading((9.0, 9.0), (4.0, 0.0), 16.0);
    s.advance(&here, &[far, far, far, far]);
    s.advance(&here, &[far, far, far, far]);
    assert_eq!(state(&s), ((0.0, 0.0), 1e20, 2.5e19, 0, 2));
    let root = reading((5.0, 0.0), (0.0, -0.0), 0.0);
    s.advance(&here, &[far, root, far, far]);
    assert_eq!(state(&s), ((5.0, 0.0), 5e19, 5e19, 1, 0));
    // where the search stands on a zero, every later probe ends its round
    let here = reading((5.0, 0.0), (0.0, 0.0), 0.0);
    s.advance(&here, &[far, far, far, far]);
    assert_eq!(state(&s), ((5.0, 0.0), 2.5e19, 2.5e19, 2, 0));
}

#[test]
fn advance_ends_the_round_after_the_last_probe() {
    let mut s = Search::new();
    let here = reading((0.0, 0.0), (3.0, 0.0), 9.0);
    let far = reading((9.0, 9.0), (4.0, 0.0), 16.0);
    let mut step = 1e20f64;
    for i in 0..149 {
        assert_eq!(state(&s), ((0.0, 0.0), 1e20, step, 0, i));
        s.advance(&here, &[far, far, far, far]);
        step /= 2.0;
    }
    assert_eq!(state(&s), ((0.0, 0.0), 1e20, step, 0, 149));
    s.advance(&here, &[far, far, far, far]);
    assert_eq!(state(&s), ((0.0, 0.0), 5e19, 5e19, 1, 0));
}

#[test]
fn a_search_that_never_moves_makes_every_probe() {
    let mut s = Search::new();
    let here = reading((0.0, 0.0), (3.0, 0.0), 9.0);
    let far = reading((9.0, 9.0), (4.0, 0.0), 16.0);
    let mut probes = 0;
    while !s.is_done() {
        s.advance(&here, &[far, far, far, far]);
        probes += 1;
    }
    assert_eq!(probes, 150 * 150);
    assert_eq!(f64::from_bits(s.step_re), 1e20 / 2f64.powi(150));
    assert_eq!(s.outer, 150);
}

#[test]
fn a_search_on_a_zero_makes_one_probe_per_round() {
    let mut s = Search::new();
    let here = reading((0.0, 0.0), (0.0, 0.0), 0.0);
    let far = reading((9.0, 9.0), (4.0, 0.0), 16.0);
    let mut probes = 0;
    while !s.is_done() {
        s.advance(&here, &[far, far, far, far]);
        probes += 1;
    }
    assert_eq!(probes, 150);
}

#[test]
fn read_at_evaluates_and_measures() {
    let p = reals(&[-1.0, 0.0, 1.0]);
    let r = p.read_at(c(0.0, 2.0), &unit);
    assert_eq!(parts(r.point), (0.0, 2.0));
    assert_eq!(parts(r.value), (-5.0, 0.0));
    assert_eq!(f64::from_bits(r.norm), 25.0);
}

#[test]
fn search_min_finds_the_root_of_a_linear_polynomial() {
    let p = reals(&[-5.0, 1.0]);
    let z = p.search_min(&unit);
    assert_eq!((z.re, z.im), (0x4014_0000_0000_0000, 0));
    assert_eq!(parts(z), (5.0, 0.0));
    assert!(p.value_at(z, &unit).is_zero());
}

#[test]
fn search_min_is_reproducible() {
    let p = reals(&[-1.0, 0.0, 0.0, 1.0]);
    let a = p.search_min(&unit);
    let b = p.search_min(&unit);
    assert_eq!((a.re, a.im), (b.re, b.im));
    assert_eq!((a.re, a.im), (0xBFDF_FFFF_FFFF_FFFF, 0x3FEB_B67A_E858_4CAA));
}

#[test]
fn search_min_on_a_constant_stays_at_zero() {
    let z = reals(&[4.0]).search_min(&unit);
    assert_eq!((z.re, z.im), (0, 0));
    let e = Polynomial::new().search_min(&unit);
    assert_eq!((e.re, e.im), (0, 0));
}

#[test]
fn roots_of_x_squared_minus_one() {
    let first = find_roots(reals(&[-1.0, 0.0, 1.0]), &unit, &round);
    assert_eq!(listed(&first), vec![(1.0, 0.0), (-1.0, 0.0)]);
    assert_eq!(first[0].re, 0x3FF0_0000_0000_0000);
    assert_eq!(first[1].re, 0xBFF0_0000_0000_0000);
    let again = find_roots(reals(&[-1.0, 0.0, 1.0]), &unit, &round);
    let bits = |v: &Vec<Complex>| v.iter().map(|z| (z.re, z.im)).collect::<Vec<_>>();
    assert_eq!(bits(&first), bits(&again));
}

#[test]
fn x_squared_minus_one_takes_two_rounds() {
    let mut e = Extraction::new(reals(&[-1.0, 0.0, 1.0]));
    assert_eq!(e.remaining, 2);
    assert!(!e.is_done());
    assert!(e.step(&unit, &round));
    assert_eq!(listed(&e.polynomial.coefficients), vec![(1.0, 0.0), (1.0, 0.0)]);
    assert_eq!(listed(&e.roots), vec![(1.0, 0.0)]);
    assert_eq!(e.remaining, 1);
    assert!(e.step(&unit, &round));
    assert_eq!(listed(&e.polynomial.coefficients), vec![(1.0, 0.0)]);
    assert_eq!(listed(&e.roots), vec![(1.0, 0.0), (-1.0, 0.0)]);
    assert!(e.is_done());
    assert!(!e.step(&unit, &round));
    assert_eq!(e.roots.len(), 2);
    assert_eq!(e.polynomial.length(), 1);
}

#[test]
fn the_zero_polynomial_has_no_roots() {
    assert_eq!(find_roots(Polynomial::new(), &unit, &round).len(), 0);
    assert_eq!(find_roots(reals(&[0.0, 0.0, 0.0]), &unit, &round).len(), 0);
    assert_eq!(find_roots(reals(&[-0.0]), &unit, &round).len(), 0);
    let mut e = Extraction::new(reals(&[0.0, 0.0]));
    assert!(e.is_done());
    assert_eq!(e.polynomial.degree(), 0);
    assert_eq!(e.polynomial.length(), 0);
    assert!(!e.step(&unit, &round));
    e.run(&unit, &round);
    assert_eq!(e.roots.len(), 0);
}

#[test]
fn a_constant_has_no_roots() {
    assert_eq!(find_roots(reals(&[4.0]), &unit, &round).len(), 0);
    assert_eq!(find_roots(reals(&[4.0, 0.0, 0.0]), &unit, &round).len(), 0);
}

#[test]
fn extraction_trims_before_it_counts_its_rounds() {
    let e = Extraction::new(reals(&[6.0, -5.0, 1.0, 0.0, -0.0]));
    assert_eq!(e.remaining, 2);
    assert_eq!(e.polynomial.length(), 3);
    assert_eq!(e.roots.len(), 0);
}

#[test]
fn roots_of_a_quadratic_with_two_real_roots() {
    let roots = find_roots(reals(&[6.0, -5.0, 1.0]), &unit, &round);
    assert_eq!(listed(&roots), vec![(2.0, 0.0), (3.0, 0.0)]);
}

#[test]
fn roots_are_deflated_raw_and_recorded_rounded() {
    let mut e = Extraction::new(reals(&[6.0, -5.0, 1.0]));
    e.step(&unit, &round);
    assert_eq!(listed(&e.roots), vec![(2.0, 0.0)]);
    // the quotient shows that the point found was a little off 2
    assert_eq!(listed(&e.polynomial.coefficients), vec![(-2.999999999999999, 0.0), (1.0, 0.0)]);
}

#[test]
fn roots_of_unity_of_order_three() {
    let roots = find_roots(reals(&[-1.0, 0.0, 0.0, 1.0]), &unit, &round);
    assert_eq!(listed(&roots), vec![(-0.5, 0.87), (1.0, 0.0), (-0.5, -0.87)]);
}

#[test]
fn rounds_are_counted_once_even_where_the_polynomial_shrinks_faster() {
    // X² deflated by 0 leaves X, whose constant term is a trailing zero of
    // nothing: the count stays at two
    let mut e = Extraction::new(reals(&[0.0, 0.0, 1.0]));
    assert_eq!(e.remaining, 2);
    e.run(&unit, &round);
    assert_eq!(listed(&e.roots), vec![(0.0, 0.0), (0.0, 0.0)]);
    assert_eq!(listed(&e.polynomial.coefficients), vec![(1.0, 0.0)]);
}

#[test]
fn run_finishes_what_step_began() {
    let mut e = Extraction::new(reals(&[-1.0, 0.0, 0.0, 1.0]));
    e.step(&unit, &round);
    e.run(&unit, &round);
    assert!(e.is_done());
    assert_eq!(listed(&e.roots), vec![(-0.5, 0.87), (1.0, 0.0), (-0.5, -0.87)]);
    assert_eq!(listed(&e.polynomial.coefficients), vec![(1.0, 0.0)]);
}
