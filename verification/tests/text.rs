use polyroots::complex::Complex;
use polyroots::literal::get_complex_number;
use polyroots::polynomial::Polynomial;
use polyroots::render::{
    show_complex, show_polynomial, show_solutions, show_term, write_decimal, write_power,
};
use polyroots::unit::Op;

fn unit(op: Op, a: u64, b: u64) -> u64 {
    let x = f64::from_bits(a);
    let y = f64::from_bits(b);
    let r = match op {
        Op::Add => x + y,
        Op::Sub => x - y,
        Op::Mul => x * y,
        Op::Div => x / y,
    };
    r.to_bits()
}

fn round(a: u64) -> u64 {
    f64::from_bits(a).round().to_bits()
}

fn show(a: u64) -> Vec<char> {
    format!("{}", f64::from_bits(a)).chars().collect()
}

fn parse(text: Vec<char>) -> Option<u64> {
    let text: String = text.into_iter().collect();
    match text.parse::<f64>() {
        Ok(value) => Some(value.to_bits()),
        Err(_) => None,
    }
}

fn c(re: f64, im: f64) -> Complex {
    Complex::new(re.to_bits(), im.to_bits())
}

fn string(text: Vec<char>) -> String {
    text.into_iter().collect()
}

fn poly(coefficients: &[(f64, f64)]) -> Polynomial {
    Polynomial { coefficients: coefficients.iter().map(|&(re, im)| c(re, im)).collect() }
}

fn reals(coefficients: &[f64]) -> Polynomial {
    Polynomial { coefficients: coefficients.iter().map(|&re| c(re, 0.0)).collect() }
}

fn complex_text(re: f64, im: f64) -> String {
    string(show_complex(&c(re, im), &show))
}

fn polynomial_text(p: &Polynomial) -> String {
    string(show_polynomial(p, &unit, &round, &show))
}

fn read(text: &str, ok: bool) -> (f64, f64) {
    let chars: Vec<char> = text.chars().collect();
    let z = get_complex_number(&chars, ok, &unit, &parse);
    (f64::from_bits(z.re), f64::from_bits(z.im))
}

fn read_bits(text: &str, ok: bool) -> (u64, u64) {
    let chars: Vec<char> = text.chars().collect();
    let z = get_complex_number(&chars, ok, &unit, &parse);
    (z.re, z.im)
}

#[test]
fn decimal_text_of_numbers() {
    assert_eq!(string(write_decimal(0)), "0");
    assert_eq!(string(write_decimal(7)), "7");
    assert_eq!(string(write_decimal(10)), "10");
    assert_eq!(string(write_decimal(12345)), "12345");
    assert_eq!(string(write_decimal(1000)), "1000");
    assert_eq!(string(write_decimal(usize::MAX)), format!("{}", usize::MAX));
}

#[test]
fn power_text_by_degree() {
    assert_eq!(string(write_power(0)), "");
    assert_eq!(string(write_power(1)), "X");
    assert_eq!(string(write_power(2)), "X^2");
    assert_eq!(string(write_power(12)), "X^12");
}

#[test]
fn complex_text_of_zero_and_reals() {
    assert_eq!(complex_text(0.0, 0.0), "0");
    assert_eq!(complex_text(-0.0, -0.0), "0");
    assert_eq!(complex_text(3.0, 0.0), "3");
    assert_eq!(complex_text(-2.5, 0.0), "-2.5");
    assert_eq!(complex_text(1.0, -0.0), "1");
    assert_eq!(complex_text(1e20, 0.0), "100000000000000000000");
}

#[test]
fn complex_text_of_imaginaries() {
    assert_eq!(complex_text(0.0, 1.0), "i");
    assert_eq!(complex_text(0.0, -1.0), "-i");
    assert_eq!(complex_text(-0.0, 1.0), "i");
    assert_eq!(complex_text(0.0, 2.0), "2i");
    assert_eq!(complex_text(0.0, -0.5), "-0.5i");
}

#[test]
fn complex_text_of_both_parts() {
    assert_eq!(complex_text(1.0, 2.0), "1+2i");
    assert_eq!(complex_text(1.0, -2.0), "1-2i");
    assert_eq!(complex_text(-1.5, 0.25), "-1.5+0.25i");
    assert_eq!(complex_text(-0.5, 0.87), "-0.5+0.87i");
    assert_eq!(complex_text(3.0, 1.0), "3+1i");
    assert_eq!(complex_text(3.0, -1.0), "3-1i");
}

#[test]
fn complex_text_of_values_that_are_no_numbers() {
    assert_eq!(complex_text(f64::NAN, 0.0), "NaN");
    assert_eq!(complex_text(0.0, f64::NAN), "NaNi");
    assert_eq!(complex_text(1.0, f64::NAN), "1NaNi");
    assert_eq!(complex_text(f64::INFINITY, f64::NEG_INFINITY), "inf-infi");
    assert_eq!(complex_text(f64::NEG_INFINITY, f64::INFINITY), "-inf+infi");
}

#[test]
fn polynomial_text_of_the_zero_polynomial() {
    assert_eq!(polynomial_text(&reals(&[])), "0");
    assert_eq!(polynomial_text(&reals(&[0.0, 0.0])), "0");
    assert_eq!(polynomial_text(&reals(&[0.004, -0.004])), "0");
}

#[test]
fn polynomial_text_of_unit_coefficients() {
    assert_eq!(polynomial_text(&reals(&[1.0])), "1");
    assert_eq!(polynomial_text(&reals(&[-1.0])), "-1");
    assert_eq!(polynomial_text(&reals(&[0.0, 1.0])), "X");
    assert_eq!(polynomial_text(&reals(&[0.0, -1.0])), "-X");
    assert_eq!(polynomial_text(&reals(&[-1.0, 0.0, 1.0])), "X^2 - 1");
    assert_eq!(polynomial_text(&reals(&[1.0, 1.0, 1.0])), "X^2 + X + 1");
    assert_eq!(polynomial_text(&reals(&[-1.0, -1.0, -1.0])), "-X^2 - X - 1");
}

#[test]
fn polynomial_text_of_real_coefficients() {
    assert_eq!(polynomial_text(&reals(&[6.0, -5.0, 1.0])), "X^2 - 5X + 6");
    assert_eq!(polynomial_text(&reals(&[2.0, 3.0])), "3X + 2");
    assert_eq!(polynomial_text(&reals(&[-2.0, 0.0, 0.0, -3.5])), "-3.5X^3 - 2");
    assert_eq!(polynomial_text(&reals(&[-2.999999999999999, 1.0])), "X - 3");
}

#[test]
fn polynomial_text_of_complex_coefficients() {
    assert_eq!(polynomial_text(&poly(&[(0.0, 1.0), (1.0, 2.0)])), "1+2iX + i");
    assert_eq!(
        polynomial_text(&poly(&[(0.0, -2.0), (-3.0, 1.0), (-1.0, 0.0), (2.5, 0.0)])),
        "2.5X^3 - X^2 - 3-1iX - 2i"
    );
    assert_eq!(polynomial_text(&poly(&[(0.5, -1.0), (0.0, -1.0)])), "-iX + 0.5-1i");
    assert_eq!(polynomial_text(&poly(&[(0.0, 1.0), (0.0, 1.0)])), "iX + i");
    assert_eq!(polynomial_text(&poly(&[(0.0, -1.0), (1.0, 0.0)])), "X - i");
}

#[test]
fn polynomial_text_rounds_before_it_decides() {
    assert_eq!(polynomial_text(&reals(&[0.005, 0.996, 1.004])), "X^2 + X + 0.01");
    assert_eq!(polynomial_text(&reals(&[-0.996, 0.0, 2.675])), "2.68X^2 - 1");
}

#[test]
fn polynomial_text_with_a_high_power() {
    let mut coefficients = vec![0.0; 12];
    coefficients.push(4.0);
    coefficients[10] = -1.0;
    assert_eq!(polynomial_text(&reals(&coefficients)), "4X^12 - X^10");
}

#[test]
fn term_text_by_place() {
    assert_eq!(string(show_term(&c(1.0, 0.0), true, 0, &unit, &show)), "1");
    assert_eq!(string(show_term(&c(1.0, 0.0), false, 0, &unit, &show)), " + 1");
    assert_eq!(string(show_term(&c(-1.0, 0.0), true, 3, &unit, &show)), "-X^3");
    assert_eq!(string(show_term(&c(-1.0, 0.0), false, 1, &unit, &show)), " - X");
    assert_eq!(string(show_term(&c(-4.0, 0.0), true, 1, &unit, &show)), "-4X");
    assert_eq!(string(show_term(&c(-4.0, 0.0), false, 1, &unit, &show)), " - 4X");
    assert_eq!(string(show_term(&c(4.0, 0.0), false, 2, &unit, &show)), " + 4X^2");
    assert_eq!(string(show_term(&c(0.0, -1.0), false, 0, &unit, &show)), " - i");
    assert_eq!(string(show_term(&c(0.0, 1.0), false, 0, &unit, &show)), " + i");
    assert_eq!(string(show_term(&c(f64::NAN, 0.0), false, 0, &unit, &show)), " + NaN");
}

#[test]
fn solutions_text_of_root_sets() {
    assert_eq!(string(show_solutions(&vec![], &show)), "{}");
    assert_eq!(string(show_solutions(&vec![c(1.0, 0.0)], &show)), "{ 1 }");
    assert_eq!(string(show_solutions(&vec![c(1.0, 0.0), c(-1.0, 0.0)], &show)), "{ 1, -1 }");
    assert_eq!(
        string(show_solutions(&vec![c(-0.5, 0.87), c(1.0, 0.0), c(-0.5, -0.87)], &show)),
        "{ -0.5+0.87i, 1, -0.5-0.87i }"
    );
}

#[test]
fn literal_of_nothing_is_one() {
    assert_eq!(read("", true), (1.0, 0.0));
    assert_eq!(read("", false), (1.0, 0.0));
}

#[test]
fn literal_of_one_term() {
    assert_eq!(read("3", true), (3.0, 0.0));
    assert_eq!(read("-3", true), (-3.0, 0.0));
    assert_eq!(read("+3", true), (3.0, 0.0));
    assert_eq!(read("1.5", true), (1.5, 0.0));
    assert_eq!(read("1e5", true), (100000.0, 0.0));
    assert_eq!(read("i", true), (0.0, 1.0));
    assert_eq!(read("-i", true), (0.0, -1.0));
    assert_eq!(read("+i", true), (0.0, 1.0));
    assert_eq!(read("4i", true), (0.0, 4.0));
    assert_eq!(read("-2.5i", true), (0.0, -2.5));
}

#[test]
fn literal_of_several_terms() {
    assert_eq!(read("3+4i", true), (3.0, 4.0));
    assert_eq!(read("3-4i", true), (3.0, -4.0));
    assert_eq!(read("-3-i", true), (-3.0, -1.0));
    assert_eq!(read("2i+3", true), (3.0, 2.0));
    assert_eq!(read("2.5i-1", true), (-1.0, 2.5));
    assert_eq!(read("3+4i+5", true), (8.0, 4.0));
    assert_eq!(read("i+i", true), (0.0, 2.0));
    assert_eq!(read("ii", true), (0.0, 2.0));
    assert_eq!(read("3i4", true), (4.0, 3.0));
}

#[test]
fn literal_adds_from_the_right() {
    // 0.1 + (0.2 + 0.3), not (0.1 + 0.2) + 0.3
    assert_eq!(read("0.1+0.2+0.3", true).0, 0.1 + (0.2 + 0.3));
    assert_eq!(read_bits("0.1+0.2+0.3", true).0, 0x3FE3_3333_3333_3333);
}

#[test]
fn literal_that_cannot_be_read_counts_as_zero_and_ends_the_chain() {
    assert_eq!(read("abc", true), (0.0, 0.0));
    assert_eq!(read_bits("-abc", true), ((-0.0f64).to_bits(), 0));
    assert_eq!(read("3+abc", true), (3.0, 0.0));
    assert_eq!(read("3+abc+5", true), (3.0, 0.0));
    assert_eq!(read("abc+5", true), (0.0, 0.0));
    assert_eq!(read("+", true), (0.0, 0.0));
    assert_eq!(read_bits("-", true), ((-0.0f64).to_bits(), 0));
    assert_eq!(read_bits("--3", true), ((-0.0f64).to_bits(), 0));
    // the exponent's sign ends the number
    assert_eq!(read("1e-5", true), (0.0, 0.0));
    // an unreadable number is real even where an `i` follows it later
    assert_eq!(read("abci", true), (0.0, 0.0));
    assert_eq!(read("inf", true), (0.0, 1.0));
}

#[test]
fn literal_after_an_earlier_failure_is_its_first_term() {
    assert_eq!(read("3+4i", false), (3.0, 0.0));
    assert_eq!(read("2i+3", false), (0.0, 2.0));
    assert_eq!(read("-i", false), (0.0, -1.0));
}

#[test]
fn literal_multiplies_the_sign_into_the_number() {
    // a unit that tells a product from a sum
    let tally = |op: Op, a: u64, b: u64| -> u64 {
        match op {
            Op::Mul => a ^ b,
            Op::Add => a + b,
            _ => 0,
        }
    };
    let seven = |_text: Vec<char>| -> Option<u64> { Some(7) };
    let chars: Vec<char> = "-x+yi".chars().collect();
    let z = get_complex_number(&chars, true, &tally, &seven);
    let one = 0x3FF0_0000_0000_0000u64;
    let minus_one = 0xBFF0_0000_0000_0000u64;
    assert_eq!((z.re, z.im), ((minus_one ^ 7) + 0, 0 + (one ^ 7)));
}
