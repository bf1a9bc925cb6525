//! Complex numbers, polynomials and root sets as text.
//!
//! The decimal text of a binary64 value comes from a writer that the caller
//! supplies; which values are written, in which order and between which
//! signs, letters and blanks is decided here.

use vstd::prelude::*;
use crate::complex::Complex;
use crate::ieee::{below, zero, MINUS_ONE, ONE, ZERO};
use crate::polynomial::Polynomial;
use crate::unit::{total, total_rounding, Op};

verus! {

/// The writer accepts every pattern.
pub open spec fn total_writer<S: Fn(u64) -> Vec<char>>(show: &S) -> bool {
    forall|a: u64| call_requires(show, (a,))
}

/// `text` is what the writer can give for the value `a`.
pub open spec fn writes<S: Fn(u64) -> Vec<char>>(show: &S, a: u64, text: Seq<char>) -> bool {
    exists|v: Vec<char>| #[trigger] call_ensures(show, (a,), v) && v@ == text
}

/// The decimal digit for a number below ten.
pub open spec fn digit(d: nat) -> char {
    if d == 0 {
        '0'
    } else if d == 1 {
        '1'
    } else if d == 2 {
        '2'
    } else if d == 3 {
        '3'
    } else if d == 4 {
        '4'
    } else if d == 5 {
        '5'
    } else if d == 6 {
        '6'
    } else if d == 7 {
        '7'
    } else if d == 8 {
        '8'
    } else {
        '9'
    }
}

/// The decimal text of a natural number, without leading zeros.
pub open spec fn decimal(n: nat) -> Seq<char>
    decreases n,
{
    if n < 10 {
        seq![digit(n)]
    } else {
        decimal(n / 10).push(digit(n % 10))
    }
}

/// The text of a complex number:
/// `0`; the real part alone where the imaginary part is zero; `i`, `-i` or
/// the imaginary part and `i` where the real part is zero; else both parts,
/// joined by `+` where the imaginary part is above zero and by nothing where
/// it brings its own sign.
pub open spec fn complex_text<S: Fn(u64) -> Vec<char>>(show: &S, z: Complex, text: Seq<char>) -> bool {
    if z.vanishes() {
        text == seq!['0']
    } else if zero(z.im) {
        writes(show, z.re, text)
    } else if zero(z.re) {
        if z.im == ONE {
            text == seq!['i']
        } else if z.im == MINUS_ONE {
            text == seq!['-', 'i']
        } else {
            exists|im: Seq<char>| #[trigger] writes(show, z.im, im) && text == im.push('i')
        }
    } else {
        exists|re: Seq<char>, im: Seq<char>|
            #![trigger writes(show, z.re, re), writes(show, z.im, im)]
            writes(show, z.re, re) && writes(show, z.im, im) && text == re + (if below(ZERO, z.im) {
                seq!['+']
            } else {
                Seq::<char>::empty()
            }) + im.push('i')
    }
}

/// What follows a coefficient: nothing for the constant term, `X` for the
/// linear one, `X^k` above.
pub open spec fn power_text(power: nat) -> Seq<char> {
    if power == 0 {
        Seq::empty()
    } else if power == 1 {
        seq!['X']
    } else {
        seq!['X', '^'] + decimal(power)
    }
}

/// A term whose coefficient is not written: `1` for the constant term, the
/// power alone above.
pub open spec fn bare_term(power: nat) -> Seq<char> {
    if power == 0 {
        seq!['1']
    } else {
        power_text(power)
    }
}

/// The coefficient is the real number one.
pub open spec fn plainly_one(v: Complex) -> bool {
    v.re == ONE && zero(v.im)
}

/// The coefficient is the real number minus one.
pub open spec fn plainly_minus_one(v: Complex) -> bool {
    v.re == MINUS_ONE && zero(v.im)
}

/// The coefficient is written after a minus sign: its real part is below
/// zero, or is zero with an imaginary part that is not above zero.
pub open spec fn leans_negative(v: Complex) -> bool {
    below(v.re, ZERO) || (zero(v.re) && (below(v.im, ZERO) || zero(v.im)))
}

/// What joins a term to the text before it.
pub open spec fn joint(first: bool, minus: bool) -> Seq<char> {
    if first {
        if minus {
            seq!['-']
        } else {
            Seq::empty()
        }
    } else if minus {
        seq![' ', '-', ' ']
    } else {
        seq![' ', '+', ' ']
    }
}

/// `text` is a term for the rounded coefficient `val` of `X^power`.
/// A coefficient of one or minus one is not written. The first term brings
/// its own sign; a later one follows ` + `, or ` - ` and the text of
/// `0 − val` where the coefficient leans negative.
pub open spec fn term_text<F: Fn(Op, u64, u64) -> u64, S: Fn(u64) -> Vec<char>>(
    f: &F,
    show: &S,
    val: Complex,
    first: bool,
    power: nat,
    text: Seq<char>,
) -> bool {
    if plainly_one(val) {
        text == joint(first, false) + bare_term(power)
    } else if plainly_minus_one(val) {
        text == joint(first, true) + bare_term(power)
    } else if !first && leans_negative(val) {
        exists|turned: Complex, written: Seq<char>|
            #![trigger Complex::difference_of(f, Complex::origin(), val, turned), complex_text(show, turned, written)]
            Complex::difference_of(f, Complex::origin(), val, turned) && complex_text(
                show,
                turned,
                written,
            ) && text == joint(false, true) + written + power_text(power)
    } else {
        exists|written: Seq<char>|
            #![trigger complex_text(show, val, written)]
            complex_text(show, val, written) && text == joint(first, false) + written + power_text(
                power,
            )
    }
}

/// Nothing has been written yet.
pub open spec fn untouched(text: Seq<char>) -> bool {
    text.len() == 0
}

/// `after` is `before` with the term of `X^power` appended: the coefficient
/// is rounded to two decimals, and a term is written unless that is zero.
/// A term is the first one where nothing has been written yet.
pub open spec fn term_appended<F: Fn(Op, u64, u64) -> u64, R: Fn(u64) -> u64, S: Fn(u64) -> Vec<char>>(
    f: &F,
    round: &R,
    show: &S,
    coefficient: Complex,
    power: nat,
    before: Seq<char>,
    after: Seq<char>,
) -> bool {
    exists|val: Complex|
        #![trigger Complex::two_dec_of(f, round, coefficient, val)]
        Complex::two_dec_of(f, round, coefficient, val) && if val.vanishes() {
            after == before
        } else {
            exists|text: Seq<char>|
                #![trigger term_text(f, show, val, untouched(before), power, text)]
                term_text(f, show, val, untouched(before), power, text) && after == before + text
        }
}

/// Stage `k` of writing a polynomial appends the term of the power `k`
/// below the highest.
pub open spec fn stage_step<F: Fn(Op, u64, u64) -> u64, R: Fn(u64) -> u64, S: Fn(u64) -> Vec<char>>(
    f: &F,
    round: &R,
    show: &S,
    c: Seq<Complex>,
    stages: Seq<Seq<char>>,
    k: int,
) -> bool {
    term_appended(
        f,
        round,
        show,
        c[c.len() - 1 - k],
        (c.len() - 1 - k) as nat,
        stages[k],
        stages[k + 1],
    )
}

/// `stages` are the texts while the first `n` terms of a polynomial are
/// written, from the highest power down, starting from nothing.
pub open spec fn stages_of<F: Fn(Op, u64, u64) -> u64, R: Fn(u64) -> u64, S: Fn(u64) -> Vec<char>>(
    f: &F,
    round: &R,
    show: &S,
    c: Seq<Complex>,
    n: int,
    stages: Seq<Seq<char>>,
) -> bool {
    &&& stages.len() == n + 1
    &&& stages[0] == Seq::<char>::empty()
    &&& forall|k: int| 0 <= k < n ==> #[trigger] stage_step(f, round, show, c, stages, k)
}

/// `text` is a text of the polynomial `c`: its terms from the highest power
/// down, and `0` where no term is written.
pub open spec fn polynomial_text<F: Fn(Op, u64, u64) -> u64, R: Fn(u64) -> u64, S: Fn(u64) -> Vec<char>>(
    f: &F,
    round: &R,
    show: &S,
    c: Seq<Complex>,
    text: Seq<char>,
) -> bool {
    exists|stages: Seq<Seq<char>>|
        #![trigger stages_of(f, round, show, c, c.len() as int, stages)]
        stages_of(f, round, show, c, c.len() as int, stages) && text == if stages.last().len()
            == 0 {
            seq!['0']
        } else {
            stages.last()
        }
}

/// The first `n` texts, each followed by a comma and a blank.
pub open spec fn enumerated(texts: Seq<Seq<char>>, n: int) -> Seq<char>
    decreases n,
{
    if n <= 0 {
        Seq::empty()
    } else {
        enumerated(texts, n - 1) + texts[n - 1] + seq![',', ' ']
    }
}

/// `text` is a text of the root set: `{}` where it is empty, else the roots
/// in their order between `{ ` and ` }`, a comma and a blank between two.
pub open spec fn solutions_text<S: Fn(u64) -> Vec<char>>(
    show: &S,
    roots: Seq<Complex>,
    text: Seq<char>,
) -> bool {
    if roots.len() == 0 {
        text == seq!['{', '}']
    } else {
        exists|texts: Seq<Seq<char>>|
            #![trigger enumerated(texts, roots.len() - 1)]
            {
                &&& texts.len() == roots.len()
                &&& forall|i: int|
                    0 <= i < roots.len() ==> complex_text(show, roots[i], #[trigger] texts[i])
                &&& text == seq!['{', ' '] + enumerated(texts, roots.len() - 1) + texts.last()
                    + seq![' ', '}']
            }
    }
}

/// The decimal digit for a number below ten.
fn digit_char(d: usize) -> (r: char)
    requires
        d < 10,
    ensures
        r == digit(d as nat),
{
    if d == 0 {
        '0'
    } else if d == 1 {
        '1'
    } else if d == 2 {
        '2'
    } else if d == 3 {
        '3'
    } else if d == 4 {
        '4'
    } else if d == 5 {
        '5'
    } else if d == 6 {
        '6'
    } else if d == 7 {
        '7'
    } else if d == 8 {
        '8'
    } else {
        '9'
    }
}

/// Writes a number in decimal.
pub fn write_decimal(n: usize) -> (r: Vec<char>)
    ensures
        r@ == decimal(n as nat),
    decreases n,
{
    if n < 10 {
        let mut r = Vec::new();
        r.push(digit_char(n));
        proof {
            assert(r@ =~= seq![digit(n as nat)]);
        }
        r
    } else {
        let mut r = write_decimal(n / 10);
        r.push(digit_char(n % 10));
        r
    }
}

/// Writes what follows the coefficient of `X^power`.
pub fn write_power(power: usize) -> (r: Vec<char>)
    ensures
        r@ == power_text(power as nat),
{
    let mut r: Vec<char> = Vec::new();
    if power >= 1 {
        r.push('X');
        if power >= 2 {
            r.push('^');
            let mut digits = write_decimal(power);
            r.append(&mut digits);
        }
    }
    proof {
        assert(r@ =~= power_text(power as nat));
    }
    r
}

/// Writes a complex number.
pub fn show_complex<S: Fn(u64) -> Vec<char>>(z: &Complex, show: &S) -> (r: Vec<char>)
    requires
        total_writer(show),
    ensures
        complex_text(show, *z, r@),
{
    let mut r: Vec<char> = Vec::new();
    if z.is_zero() {
        r.push('0');
        proof {
            assert(r@ =~= seq!['0']);
        }
    } else if crate::ieee::is_zero(z.im) {
        r = show(z.re);
    } else if crate::ieee::is_zero(z.re) {
        if z.im == ONE {
            r.push('i');
            proof {
                assert(r@ =~= seq!['i']);
            }
        } else if z.im == MINUS_ONE {
            r.push('-');
            r.push('i');
            proof {
                assert(r@ =~= seq!['-', 'i']);
            }
        } else {
            r = show(z.im);
            let ghost im = r@;
            r.push('i');
            proof {
                assert(writes(show, z.im, im));
            }
        }
    } else {
        r = show(z.re);
        let ghost re = r@;
        if crate::ieee::less_than(ZERO, z.im) {
            r.push('+');
        }
        let mut im_text = show(z.im);
        let ghost im = im_text@;
        r.append(&mut im_text);
        r.push('i');
        proof {
            assert(writes(show, z.re, re));
            assert(writes(show, z.im, im));
            assert(r@ =~= re + (if below(ZERO, z.im) {
                seq!['+']
            } else {
                Seq::<char>::empty()
            }) + im.push('i'));
        }
    }
    r
}

/// Writes what joins a term to the text before it.
fn write_joint(first: bool, minus: bool) -> (r: Vec<char>)
    ensures
        r@ == joint(first, minus),
{
    let mut r: Vec<char> = Vec::new();
    if first {
        if minus {
            r.push('-');
        }
    } else {
        r.push(' ');
        r.push(if minus {
            '-'
        } else {
            '+'
        });
        r.push(' ');
    }
    proof {
        assert(r@ =~= joint(first, minus));
    }
    r
}

/// Writes a term whose coefficient is not written.
fn write_bare_term(power: usize) -> (r: Vec<char>)
    ensures
        r@ == bare_term(power as nat),
{
    if power == 0 {
        let mut r: Vec<char> = Vec::new();
        r.push('1');
        proof {
            assert(r@ =~= seq!['1']);
        }
        r
    } else {
        write_power(power)
    }
}

/// Writes the term for the rounded coefficient `val` of `X^power`.
pub fn show_term<F: Fn(Op, u64, u64) -> u64, S: Fn(u64) -> Vec<char>>(
    val: &Complex,
    first: bool,
    power: usize,
    f: &F,
    show: &S,
) -> (r: Vec<char>)
    requires
        total(f),
        total_writer(show),
    ensures
        term_text(f, show, *val, first, power as nat, r@),
{
    let one = val.re == ONE && crate::ieee::is_zero(val.im);
    let minus_one = val.re == MINUS_ONE && crate::ieee::is_zero(val.im);
    if one || minus_one {
        let mut r = write_joint(first, minus_one);
        let mut rest = write_bare_term(power);
        r.append(&mut rest);
        r
    } else {
        let negative = !first && (crate::ieee::less_than(val.re, ZERO) || (crate::ieee::is_zero(
            val.re,
        ) && (crate::ieee::less_than(val.im, ZERO) || crate::ieee::is_zero(val.im))));
        let mut r = write_joint(first, negative);
        let shown = if negative {
            Complex::default().sub(*val, f)
        } else {
            *val
        };
        let mut written = show_complex(&shown, show);
        let ghost text = written@;
        r.append(&mut written);
        let mut rest = write_power(power);
        r.append(&mut rest);
        proof {
            assert(complex_text(show, shown, text));
            assert(r@ == joint(first, negative) + text + power_text(power as nat));
        }
        r
    }
}

/// Writes a polynomial: the terms whose coefficient, rounded to two
/// decimals, is not zero, from the highest power down; `0` where there is
/// none.
pub fn show_polynomial<F: Fn(Op, u64, u64) -> u64, R: Fn(u64) -> u64, S: Fn(u64) -> Vec<char>>(
    p: &Polynomial,
    f: &F,
    round: &R,
    show: &S,
) -> (r: Vec<char>)
    requires
        total(f),
        total_rounding(round),
        total_writer(show),
    ensures
        polynomial_text(f, round, show, p@, r@),
{
    let n = p.coefficients.len();
    let mut r: Vec<char> = Vec::new();
    let ghost mut stages: Seq<Seq<char>> = seq![r@];
    let mut k: usize = 0;
    while k < n
        invariant
            total(f),
            total_rounding(round),
            total_writer(show),
            n == p@.len(),
            k <= n,
            stages_of(f, round, show, p@, k as int, stages),
            stages[k as int] == r@,
        decreases n - k,
    {
        let power = n - 1 - k;
        let val = p.coefficients[power].two_dec(f, round);
        let ghost before = r@;
        if !val.is_zero() {
            let mut text = show_term(&val, r.len() == 0, power, f, show);
            let ghost written = text@;
            r.append(&mut text);
            proof {
                assert(term_text(f, show, val, untouched(before), power as nat, written));
            }
        }
        proof {
            let ghost earlier = stages;
            stages = stages.push(r@);
            assert(term_appended(f, round, show, p@[power as int], power as nat, before, r@));
            assert forall|j: int| 0 <= j < k + 1 implies #[trigger] stage_step(
                f,
                round,
                show,
                p@,
                stages,
                j,
            ) by {
                if j < k {
                    assert(stage_step(f, round, show, p@, earlier, j));
                    assert(stages[j] == earlier[j] && stages[j + 1] == earlier[j + 1]);
                } else {
                    assert(stages[j] == before && stages[j + 1] == r@);
                }
            }
        }
        k += 1;
    }
    if r.len() == 0 {
        r.push('0');
        proof {
            assert(r@ =~= seq!['0']);
        }
    }
    r
}

/// Writes a root set.
pub fn show_solutions<S: Fn(u64) -> Vec<char>>(solution_list: &Vec<Complex>, show: &S) -> (r: Vec<
    char,
>)
    requires
        total_writer(show),
    ensures
        solutions_text(show, solution_list@, r@),
{
    let mut r: Vec<char> = Vec::new();
    r.push('{');
    if solution_list.len() == 0 {
        r.push('}');
        proof {
            assert(r@ =~= seq!['{', '}']);
        }
        return r;
    }
    r.push(' ');
    let length = solution_list.len() - 1;
    let ghost mut texts: Seq<Seq<char>> = Seq::empty();
    let mut i: usize = 0;
    while i < length
        invariant
            total_writer(show),
            length == solution_list@.len() - 1,
            i <= length,
            texts.len() == i,
            forall|j: int| 0 <= j < i ==> complex_text(show, solution_list@[j], #[trigger] texts[j]),
            r@ == seq!['{', ' '] + enumerated(texts, i as int),
        decreases length - i,
    {
        let mut text = show_complex(&solution_list[i], show);
        let ghost written = text@;
        let ghost before = r@;
        let ghost earlier = texts;
        r.append(&mut text);
        r.push(',');
        r.push(' ');
        proof {
            texts = texts.push(written);
            enumerated_ignores_the_rest(earlier, texts, i as int);
            assert(r@ =~= before + written + seq![',', ' ']);
            assert(r@ =~= seq!['{', ' '] + enumerated(texts, i + 1));
        }
        i += 1;
    }
    let mut text = show_complex(&solution_list[length], show);
    let ghost written = text@;
    let ghost before = r@;
    let ghost earlier = texts;
    r.append(&mut text);
    r.push(' ');
    r.push('}');
    proof {
        texts = texts.push(written);
        enumerated_ignores_the_rest(earlier, texts, length as int);
        assert(r@ =~= seq!['{', ' '] + enumerated(texts, length as int) + texts.last() + seq![
            ' ',
            '}',
        ]);
    }
    r
}

/// The enumeration of the first `n` texts depends on those alone.
pub proof fn enumerated_ignores_the_rest(a: Seq<Seq<char>>, b: Seq<Seq<char>>, n: int)
    requires
        n <= a.len(),
        n <= b.len(),
        forall|i: int| 0 <= i < n ==> a[i] == b[i],
    ensures
        enumerated(a, n) == enumerated(b, n),
    decreases n,
{
    if n > 0 {
        enumerated_ignores_the_rest(a, b, n - 1);
    }
}

} // verus!
