//! Assembling a polynomial from a sequence of arguments such as
//! `X^3`, `-`, `(2+i)x^2`, `+`, `4i`.
//!
//! An argument is a sign for the terms that follow, a term with an `x` or
//! `X`, or a constant. A term is a coefficient, the variable, and a power
//! written as `^k`; without a power it is linear. The coefficient is a
//! complex literal, in round brackets or without.

use vstd::prelude::*;
use crate::complex::Complex;
use crate::ieee::{MINUS_ONE, ONE, ZERO};
use crate::literal::{get_complex_number, literal_of, total_reader};
use crate::polynomial::{padded, Polynomial};
use crate::unit::{total, Op};

verus! {

/// A polynomial under assembly.
#[derive(Debug)]
pub struct Assembly {
    /// The sum of the terms read so far.
    pub polynomial: Polynomial,
    /// The sign of the terms that follow: the pattern of `1.0` or of `-1.0`.
    pub sign: u64,
    /// Nothing was wrong so far.
    pub ok: bool,
    /// The last argument whose power was not written as `^k`.
    pub bad_power: Option<Vec<char>>,
}

/// An assembly as plain values.
pub struct AssemblyView {
    pub polynomial: Seq<Complex>,
    pub sign: u64,
    pub ok: bool,
    pub bad_power: Option<Seq<char>>,
}

impl View for Assembly {
    type V = AssemblyView;

    open spec fn view(&self) -> AssemblyView {
        AssemblyView {
            polynomial: self.polynomial@,
            sign: self.sign,
            ok: self.ok,
            bad_power: match self.bad_power {
                Some(v) => Some(v@),
                None => None,
            },
        }
    }
}

/// What is known of a term's power.
pub struct PowerReading {
    /// The power: 1 where none is written, 0 where it cannot be read.
    pub power: nat,
    /// The power could be read.
    pub fine: bool,
    /// Something that is no `^k` follows the variable.
    pub malformed: bool,
}

/// The variable.
pub open spec fn is_x(c: char) -> bool {
    c == 'x' || c == 'X'
}

/// The index of the first variable at or after `i`; the length where there
/// is none.
pub open spec fn first_x(s: Seq<char>, i: int) -> int
    decreases s.len() - i,
{
    if i >= s.len() {
        s.len() as int
    } else if is_x(s[i]) {
        i
    } else {
        first_x(s, i + 1)
    }
}

/// The index of the last variable before `n`; −1 where there is none.
pub open spec fn last_x(s: Seq<char>, n: int) -> int
    decreases n,
{
    if n <= 0 {
        -1
    } else if is_x(s[n - 1]) {
        n - 1
    } else {
        last_x(s, n - 1)
    }
}

/// The index of the last `^` before `n`; −1 where there is none.
pub open spec fn last_caret(s: Seq<char>, n: int) -> int
    decreases n,
{
    if n <= 0 {
        -1
    } else if s[n - 1] == '^' {
        n - 1
    } else {
        last_caret(s, n - 1)
    }
}

/// The argument holds a variable.
pub open spec fn has_x(s: Seq<char>) -> bool {
    first_x(s, 0) < s.len()
}

/// The value of a decimal digit.
pub open spec fn digit_value(c: char) -> Option<nat> {
    if c == '0' {
        Some(0nat)
    } else if c == '1' {
        Some(1nat)
    } else if c == '2' {
        Some(2nat)
    } else if c == '3' {
        Some(3nat)
    } else if c == '4' {
        Some(4nat)
    } else if c == '5' {
        Some(5nat)
    } else if c == '6' {
        Some(6nat)
    } else if c == '7' {
        Some(7nat)
    } else if c == '8' {
        Some(8nat)
    } else if c == '9' {
        Some(9nat)
    } else {
        None
    }
}

/// The number that the digits `s` write; `None` where one is no digit.
pub open spec fn digits_value(s: Seq<char>) -> Option<nat>
    decreases s.len(),
{
    if s.len() == 0 {
        Some(0nat)
    } else {
        match (digits_value(s.drop_last()), digit_value(s.last())) {
            (Some(high), Some(low)) => Some(high * 10 + low),
            _ => None,
        }
    }
}

/// The number that `s` writes: decimal digits, at least one, after an
/// optional `+`, with a value that a `usize` can hold.
pub open spec fn natural(s: Seq<char>) -> Option<usize> {
    let digits = if s.len() > 0 && s[0] == '+' {
        s.skip(1)
    } else {
        s
    };
    if digits.len() == 0 {
        None
    } else {
        match digits_value(digits) {
            Some(v) => if v <= usize::MAX {
                Some(v as usize)
            } else {
                None
            },
            None => None,
        }
    }
}

/// The coefficient of a term as written: what stands before the first
/// variable.
pub open spec fn coefficient_part(s: Seq<char>) -> Seq<char> {
    s.subrange(0, first_x(s, 0))
}

/// The power of a term as written: what stands after the last variable.
pub open spec fn power_part(s: Seq<char>) -> Seq<char> {
    s.subrange(last_x(s, s.len() as int) + 1, s.len() as int)
}

/// The power of the term `s`. Where nothing follows the variable it is 1.
/// Where a `^` follows, it is the number after the last `^`, or 0 and not
/// fine where that is no number. Anything else is malformed, and not fine,
/// and counts as 1.
pub open spec fn power_of(s: Seq<char>) -> PowerReading {
    let p = power_part(s);
    let caret = last_caret(p, p.len() as int);
    if caret < 0 {
        PowerReading { power: 1, fine: p.len() == 0, malformed: p.len() > 0 }
    } else {
        match natural(p.subrange(caret + 1, p.len() as int)) {
            Some(v) => PowerReading { power: v as nat, fine: true, malformed: false },
            None => PowerReading { power: 0, fine: false, malformed: false },
        }
    }
}

/// The coefficient opens a round bracket.
pub open spec fn bracketed(s: Seq<char>) -> bool {
    coefficient_part(s).len() > 0 && coefficient_part(s)[0] == '('
}

/// The coefficient of a term as a literal: without its round brackets where
/// it has them.
pub open spec fn coefficient_of(s: Seq<char>) -> Seq<char> {
    let c = coefficient_part(s);
    if bracketed(s) {
        c.subrange(1, c.len() - 1)
    } else {
        c
    }
}

/// The argument is a sign.
pub open spec fn is_sign(s: Seq<char>) -> bool {
    s.len() == 1 && (s[0] == '-' || s[0] == '+')
}

impl AssemblyView {
    /// The argument can be taken: a bracket that a coefficient opens is
    /// closed at its end, a term's power leaves room for one more
    /// coefficient, and a constant finds a coefficient to be added to.
    pub open spec fn accepts(self, arg: Seq<char>) -> bool {
        if is_sign(arg) {
            true
        } else if has_x(arg) {
            &&& bracketed(arg) ==> coefficient_part(arg).len() >= 2 && coefficient_part(arg).last()
                == ')'
            &&& power_of(arg).power < usize::MAX
        } else {
            self.polynomial.len() > 0
        }
    }

    /// The assembly after a sign.
    pub open spec fn with_sign(self, arg: Seq<char>) -> AssemblyView {
        AssemblyView {
            sign: if arg[0] == '-' {
                MINUS_ONE
            } else {
                ONE
            },
            ..self
        }
    }
}

/// `after` is the coefficient sequence `before` with the signed value of
/// the literal `text` added at `power`: the value is multiplied by the sign
/// as a real number, and the product is added to what stands there.
pub open spec fn term_added<F: Fn(Op, u64, u64) -> u64, P: Fn(Vec<char>) -> Option<u64>>(
    f: &F,
    parse: &P,
    before: Seq<Complex>,
    power: int,
    sign: u64,
    text: Seq<char>,
    ok: bool,
    after: Seq<Complex>,
) -> bool {
    exists|value: Complex, term: Complex|
        #![trigger literal_of(f, parse, text, ok, value), Complex::product_of(f, Complex { re: sign, im: ZERO }, value, term)]
        {
            &&& literal_of(f, parse, text, ok, value)
            &&& Complex::product_of(f, Complex { re: sign, im: ZERO }, value, term)
            &&& after.len() == before.len()
            &&& Complex::sum_of(f, before[power], term, after[power])
            &&& after == before.update(power, after[power])
        }
}

/// `after` follows `before` by the argument `arg`.
/// A sign sets the sign of what follows. A term is added at its power, to a
/// polynomial padded so far that it holds that power; a power that is not
/// fine is recorded, a malformed one with its argument. A constant is added
/// at power 0.
pub open spec fn fed<F: Fn(Op, u64, u64) -> u64, P: Fn(Vec<char>) -> Option<u64>>(
    f: &F,
    parse: &P,
    before: AssemblyView,
    arg: Seq<char>,
    after: AssemblyView,
) -> bool {
    if is_sign(arg) {
        after == before.with_sign(arg)
    } else if has_x(arg) {
        let reading = power_of(arg);
        &&& after.sign == before.sign
        &&& after.ok == (before.ok && reading.fine)
        &&& after.bad_power == if reading.malformed {
            Some(arg)
        } else {
            before.bad_power
        }
        &&& term_added(
            f,
            parse,
            padded(before.polynomial, reading.power + 1),
            reading.power as int,
            before.sign,
            coefficient_of(arg),
            after.ok,
            after.polynomial,
        )
    } else {
        &&& after.sign == before.sign
        &&& after.ok == before.ok
        &&& after.bad_power == before.bad_power
        &&& term_added(f, parse, before.polynomial, 0, before.sign, arg, before.ok, after.polynomial)
    }
}

/// The value of a decimal digit.
fn digit_of(c: char) -> (r: Option<usize>)
    ensures
        match r {
            Some(d) => digit_value(c) == Some(d as nat) && d < 10,
            None => digit_value(c) == None::<nat>,
        },
{
    if c == '0' {
        Some(0)
    } else if c == '1' {
        Some(1)
    } else if c == '2' {
        Some(2)
    } else if c == '3' {
        Some(3)
    } else if c == '4' {
        Some(4)
    } else if c == '5' {
        Some(5)
    } else if c == '6' {
        Some(6)
    } else if c == '7' {
        Some(7)
    } else if c == '8' {
        Some(8)
    } else if c == '9' {
        Some(9)
    } else {
        None
    }
}

/// Reads the number that `text` writes from `from` to its end.
pub fn read_natural(text: &Vec<char>, from: usize) -> (r: Option<usize>)
    requires
        from <= text.len(),
    ensures
        r == natural(text@.subrange(from as int, text@.len() as int)),
{
    let ghost whole = text@.subrange(from as int, text@.len() as int);
    let start = if from < text.len() && text[from] == '+' {
        from + 1
    } else {
        from
    };
    let ghost digits = text@.subrange(start as int, text@.len() as int);
    proof {
        if start > from {
            assert(whole.skip(1) =~= digits);
        } else {
            assert(whole =~= digits);
        }
        assert(digits == if whole.len() > 0 && whole[0] == '+' {
            whole.skip(1)
        } else {
            whole
        });
    }
    if start >= text.len() {
        return None;
    }
    let mut value: usize = 0;
    let mut fits = true;
    let mut j: usize = start;
    proof {
        assert(digits.take(0) =~= Seq::<char>::empty());
    }
    while j < text.len()
        invariant
            start <= j <= text.len(),
            start < text.len(),
            whole == text@.subrange(from as int, text@.len() as int),
            digits == text@.subrange(start as int, text@.len() as int),
            digits == if whole.len() > 0 && whole[0] == '+' {
                whole.skip(1)
            } else {
                whole
            },
            match digits_value(digits.take(j - start)) {
                Some(v) => if fits {
                    v == value
                } else {
                    v > usize::MAX
                },
                None => false,
            },
        decreases text.len() - j,
    {
        let ghost seen = digits.take(j - start);
        let ghost more = digits.take(j + 1 - start);
        proof {
            assert(more.drop_last() =~= seen);
            assert(more.last() == text@[j as int]);
        }
        match digit_of(text[j]) {
            None => {
                proof {
                    assert(digits_value(more) == None::<nat>);
                    digits_stay_unreadable(digits, j + 1 - start);
                }
                return None;
            },
            Some(d) => {
                if fits {
                    match value.checked_mul(10) {
                        Some(tens) => match tens.checked_add(d) {
                            Some(sum) => {
                                value = sum;
                            },
                            None => {
                                fits = false;
                            },
                        },
                        None => {
                            fits = false;
                        },
                    }
                }
            },
        }
        j += 1;
    }
    proof {
        assert(digits.take(digits.len() as int) =~= digits);
    }
    if fits {
        Some(value)
    } else {
        None
    }
}

/// Where a prefix of the digits holds something that is no digit, the
/// whole does.
pub proof fn digits_stay_unreadable(s: Seq<char>, n: int)
    requires
        0 <= n <= s.len(),
        digits_value(s.take(n)) == None::<nat>,
    ensures
        digits_value(s) == None::<nat>,
    decreases s.len() - n,
{
    if n < s.len() {
        assert(s.take(n + 1).drop_last() =~= s.take(n));
        digits_stay_unreadable(s, n + 1);
    } else {
        assert(s.take(n) =~= s);
    }
}

/// Tells whether the character is the variable.
fn is_variable(c: char) -> (r: bool)
    ensures
        r == is_x(c),
{
    c == 'x' || c == 'X'
}

/// Finds the first variable; the length where there is none.
fn find_first_x(text: &Vec<char>) -> (r: usize)
    ensures
        r == first_x(text@, 0),
        r <= text.len(),
{
    let mut i: usize = 0;
    while i < text.len() && !is_variable(text[i])
        invariant
            i <= text.len(),
            first_x(text@, 0) == first_x(text@, i as int),
        decreases text.len() - i,
    {
        i += 1;
    }
    i
}

/// Finds where the text after the last variable starts; 0 where there is
/// no variable.
fn find_after_last_x(text: &Vec<char>) -> (r: usize)
    ensures
        r == last_x(text@, text@.len() as int) + 1,
        r <= text.len(),
{
    let mut n: usize = text.len();
    while n > 0 && !is_variable(text[n - 1])
        invariant
            n <= text.len(),
            last_x(text@, text@.len() as int) == last_x(text@, n as int),
        decreases n,
    {
        n -= 1;
    }
    n
}

/// Copies the characters from `from` to before `to`.
fn copy_range(text: &Vec<char>, from: usize, to: usize) -> (r: Vec<char>)
    requires
        from <= to <= text.len(),
    ensures
        r@ == text@.subrange(from as int, to as int),
{
    let mut r: Vec<char> = Vec::new();
    let mut i: usize = from;
    while i < to
        invariant
            from <= i <= to,
            to <= text.len(),
            r@ == text@.subrange(from as int, i as int),
        decreases to - i,
    {
        r.push(text[i]);
        i += 1;
        proof {
            assert(r@ =~= text@.subrange(from as int, i as int));
        }
    }
    r
}

/// Reads the power of a term.
pub fn read_power(arg: &Vec<char>) -> (r: (usize, bool, bool))
    ensures
        r.0 == power_of(arg@).power,
        r.1 == power_of(arg@).fine,
        r.2 == power_of(arg@).malformed,
{
    let start = find_after_last_x(arg);
    let power = copy_range(arg, start, arg.len());
    let mut n: usize = power.len();
    while n > 0 && power[n - 1] != '^'
        invariant
            n <= power.len(),
            last_caret(power@, power@.len() as int) == last_caret(power@, n as int),
        decreases n,
    {
        n -= 1;
    }
    if n == 0 {
        (1, power.len() == 0, power.len() > 0)
    } else {
        match read_natural(&power, n) {
            Some(v) => (v, true, false),
            None => (0, false, false),
        }
    }
}

impl Assembly {
    /// An assembly that has read nothing: the zero polynomial, a positive
    /// sign, nothing wrong.
    pub fn new() -> (a: Assembly)
        ensures
            a@ == (AssemblyView {
                polynomial: Seq::empty(),
                sign: ONE,
                ok: true,
                bad_power: None,
            }),
    {
        Assembly { polynomial: Polynomial::new(), sign: ONE, ok: true, bad_power: None }
    }

    /// Tells whether the argument can be taken.
    pub fn can_feed(&self, arg: &Vec<char>) -> (r: bool)
        ensures
            r == self@.accepts(arg@),
    {
        if arg.len() == 1 && (arg[0] == '-' || arg[0] == '+') {
            true
        } else {
            let first = find_first_x(arg);
            if first < arg.len() {
                let closed = if first > 0 && arg[0] == '(' {
                    first >= 2 && arg[first - 1] == ')'
                } else {
                    true
                };
                let (power, _, _) = read_power(arg);
                closed && power < usize::MAX
            } else {
                self.polynomial.length() > 0
            }
        }
    }

    /// Adds the signed value of a literal to the coefficient of `power`.
    fn add_term<F: Fn(Op, u64, u64) -> u64, P: Fn(Vec<char>) -> Option<u64>>(
        &mut self,
        power: usize,
        text: &Vec<char>,
        f: &F,
        parse: &P,
    )
        requires
            power < old(self)@.polynomial.len(),
            total(f),
            total_reader(parse),
        ensures
            term_added(
                f,
                parse,
                old(self)@.polynomial,
                power as int,
                old(self)@.sign,
                text@,
                old(self)@.ok,
                final(self)@.polynomial,
            ),
            final(self)@.sign == old(self)@.sign,
            final(self)@.ok == old(self)@.ok,
            final(self)@.bad_power == old(self)@.bad_power,
    {
        let value = get_complex_number(text, self.ok, f, parse);
        let term = Complex::from(self.sign).mul(value, f);
        let sum = self.polynomial.coefficients[power].add(term, f);
        let ghost before = self@.polynomial;
        self.polynomial.coefficients.set(power, sum);
        proof {
            assert(Complex::product_of(f, Complex { re: old(self)@.sign, im: ZERO }, value, term));
            assert(self@.polynomial =~= before.update(power as int, self@.polynomial[power as int]));
        }
    }

    /// Takes one argument.
    pub fn feed<F: Fn(Op, u64, u64) -> u64, P: Fn(Vec<char>) -> Option<u64>>(
        &mut self,
        arg: &Vec<char>,
        f: &F,
        parse: &P,
    )
        requires
            old(self)@.accepts(arg@),
            total(f),
            total_reader(parse),
        ensures
            fed(f, parse, old(self)@, arg@, final(self)@),
    {
        if arg.len() == 1 && (arg[0] == '-' || arg[0] == '+') {
            self.sign = if arg[0] == '-' {
                MINUS_ONE
            } else {
                ONE
            };
            return ;
        }
        let first = find_first_x(arg);
        if first < arg.len() {
            let (power, fine, malformed) = read_power(arg);
            if !fine {
                self.ok = false;
            }
            if malformed {
                self.bad_power = Some(copy_range(arg, 0, arg.len()));
                proof {
                    assert(arg@.subrange(0, arg@.len() as int) =~= arg@);
                }
            }
            let coefficient = if first > 0 && arg[0] == '(' {
                copy_range(arg, 1, first - 1)
            } else {
                copy_range(arg, 0, first)
            };
            proof {
                let c = coefficient_part(arg@);
                assert(c.len() == first);
                if bracketed(arg@) {
                    assert(c.subrange(1, c.len() - 1) =~= arg@.subrange(1, first - 1));
                }
                assert(coefficient@ == coefficient_of(arg@));
            }
            self.polynomial.add0s(power + 1);
            self.add_term(power, &coefficient, f, parse);
        } else {
            self.add_term(0, arg, f, parse);
        }
    }
}

} // verus!
