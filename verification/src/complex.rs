//! Complex values as pairs of binary64 patterns.

use vstd::prelude::*;
use crate::ieee::{alike, zero, HUNDRED, ZERO, ONE};
use crate::unit::{rounds, single_valued, single_valued_rounding, total, total_rounding, yields, Op};

verus! {

/// A complex number: the binary64 patterns of its real and imaginary part.
#[derive(Clone, Copy, Debug)]
pub struct Complex {
    pub re: u64,
    pub im: u64,
}

impl Complex {
    /// `0 + 0i`.
    pub open spec fn origin() -> Complex {
        Complex { re: ZERO, im: ZERO }
    }

    /// `1 + 0i`.
    pub open spec fn unity() -> Complex {
        Complex { re: ONE, im: ZERO }
    }

    /// Both parts are a zero of either sign.
    pub open spec fn vanishes(self) -> bool {
        zero(self.re) && zero(self.im)
    }

    /// The values are equal part by part: no part is a NaN, and a zero of
    /// either sign equals a zero of either sign.
    pub open spec fn same_value(self, other: Complex) -> bool {
        alike(self.re, other.re) && alike(self.im, other.im)
    }

    /// `r` is a sum of `a` and `b`: each part was added by the unit.
    pub open spec fn sum_of<F: Fn(Op, u64, u64) -> u64>(f: &F, a: Complex, b: Complex, r: Complex) -> bool {
        yields(f, Op::Add, a.re, b.re, r.re) && yields(f, Op::Add, a.im, b.im, r.im)
    }

    /// `r` is a difference of `a` and `b`: each part was subtracted by the unit.
    pub open spec fn difference_of<F: Fn(Op, u64, u64) -> u64>(
        f: &F,
        a: Complex,
        b: Complex,
        r: Complex,
    ) -> bool {
        yields(f, Op::Sub, a.re, b.re, r.re) && yields(f, Op::Sub, a.im, b.im, r.im)
    }

    /// `r` is a product of `a` and `b`:
    /// `re = a.re * b.re - a.im * b.im`, `im = a.re * b.im + a.im * b.re`,
    /// the four products and the two combinations each answered by the unit.
    pub open spec fn product_of<F: Fn(Op, u64, u64) -> u64>(
        f: &F,
        a: Complex,
        b: Complex,
        r: Complex,
    ) -> bool {
        exists|rr: u64, ii: u64, ri: u64, ir: u64|
            #![trigger yields(f, Op::Sub, rr, ii, r.re), yields(f, Op::Add, ri, ir, r.im)]
            {
                &&& yields(f, Op::Mul, a.re, b.re, rr)
                &&& yields(f, Op::Mul, a.im, b.im, ii)
                &&& yields(f, Op::Sub, rr, ii, r.re)
                &&& yields(f, Op::Mul, a.re, b.im, ri)
                &&& yields(f, Op::Mul, a.im, b.re, ir)
                &&& yields(f, Op::Add, ri, ir, r.im)
            }
    }

    /// `d` is a divisor term of `b`: `b.re * b.re - b.im * b.im`.
    pub open spec fn divisor_of<F: Fn(Op, u64, u64) -> u64>(f: &F, b: Complex, d: u64) -> bool {
        exists|rr: u64, ii: u64|
            {
                &&& yields(f, Op::Mul, b.re, b.re, rr)
                &&& yields(f, Op::Mul, b.im, b.im, ii)
                &&& yields(f, Op::Sub, rr, ii, d)
            }
    }

    /// `r` is a quotient of `a` and `b` over the divisor term `d`:
    /// `re = (a.re * b.re + a.im * b.im) / d`, `im = (a.im * b.re - a.re * b.im) / d`.
    pub open spec fn quotient_over<F: Fn(Op, u64, u64) -> u64>(
        f: &F,
        a: Complex,
        b: Complex,
        d: u64,
        r: Complex,
    ) -> bool {
        exists|rr: u64, ii: u64, n: u64, ir: u64, ri: u64, m: u64|
            {
                &&& yields(f, Op::Mul, a.re, b.re, rr)
                &&& yields(f, Op::Mul, a.im, b.im, ii)
                &&& yields(f, Op::Add, rr, ii, n)
                &&& yields(f, Op::Div, n, d, r.re)
                &&& yields(f, Op::Mul, a.im, b.re, ir)
                &&& yields(f, Op::Mul, a.re, b.im, ri)
                &&& yields(f, Op::Sub, ir, ri, m)
                &&& yields(f, Op::Div, m, d, r.im)
            }
    }

    /// `r` is a quotient of `a` and `b`.
    pub open spec fn quotient_of<F: Fn(Op, u64, u64) -> u64>(
        f: &F,
        a: Complex,
        b: Complex,
        r: Complex,
    ) -> bool {
        exists|d: u64| #[trigger] Self::divisor_of(f, b, d) && Self::quotient_over(f, a, b, d, r)
    }

    /// `m` is a squared magnitude of `a`: `a.re * a.re + a.im * a.im`.
    pub open spec fn norm_of<F: Fn(Op, u64, u64) -> u64>(f: &F, a: Complex, m: u64) -> bool {
        exists|rr: u64, ii: u64|
            {
                &&& yields(f, Op::Mul, a.re, a.re, rr)
                &&& yields(f, Op::Mul, a.im, a.im, ii)
                &&& yields(f, Op::Add, rr, ii, m)
            }
    }

    /// `y` is `x` rounded to two decimals: multiplied by a hundred, rounded
    /// to a whole number, divided by a hundred.
    pub open spec fn hundredths_of<F: Fn(Op, u64, u64) -> u64, R: Fn(u64) -> u64>(
        f: &F,
        round: &R,
        x: u64,
        y: u64,
    ) -> bool {
        exists|scaled: u64, whole: u64|
            {
                &&& yields(f, Op::Mul, x, HUNDRED, scaled)
                &&& rounds(round, scaled, whole)
                &&& yields(f, Op::Div, whole, HUNDRED, y)
            }
    }

    /// `r` is `a` with each part rounded to two decimals.
    pub open spec fn two_dec_of<F: Fn(Op, u64, u64) -> u64, R: Fn(u64) -> u64>(
        f: &F,
        round: &R,
        a: Complex,
        r: Complex,
    ) -> bool {
        Self::hundredths_of(f, round, a.re, r.re) && Self::hundredths_of(f, round, a.im, r.im)
    }

    /// The complex number with the given parts.
    pub fn new(re: u64, im: u64) -> (r: Complex)
        ensures
            r.re == re,
            r.im == im,
    {
        Complex { re, im }
    }

    /// `1 + 0i`.
    pub fn one() -> (r: Complex)
        ensures
            r == Self::unity(),
    {
        Complex { re: ONE, im: ZERO }
    }

    /// Tells whether both parts are a zero of either sign.
    pub fn is_zero(&self) -> (r: bool)
        ensures
            r == self.vanishes(),
    {
        crate::ieee::is_zero(self.re) && crate::ieee::is_zero(self.im)
    }

    /// Adds part by part.
    pub fn add<F: Fn(Op, u64, u64) -> u64>(self, other: Complex, f: &F) -> (r: Complex)
        requires
            total(f),
        ensures
            Self::sum_of(f, self, other, r),
    {
        Complex { re: f(Op::Add, self.re, other.re), im: f(Op::Add, self.im, other.im) }
    }

    /// Adds `other` to `self` in place.
    pub fn add_assign<F: Fn(Op, u64, u64) -> u64>(&mut self, other: Complex, f: &F)
        requires
            total(f),
        ensures
            Self::sum_of(f, *old(self), other, *final(self)),
    {
        let re = f(Op::Add, self.re, other.re);
        let im = f(Op::Add, self.im, other.im);
        self.re = re;
        self.im = im;
    }

    /// Subtracts part by part.
    pub fn sub<F: Fn(Op, u64, u64) -> u64>(self, other: Complex, f: &F) -> (r: Complex)
        requires
            total(f),
        ensures
            Self::difference_of(f, self, other, r),
    {
        Complex { re: f(Op::Sub, self.re, other.re), im: f(Op::Sub, self.im, other.im) }
    }

    /// Multiplies two complex numbers.
    pub fn mul<F: Fn(Op, u64, u64) -> u64>(self, other: Complex, f: &F) -> (r: Complex)
        requires
            total(f),
        ensures
            Self::product_of(f, self, other, r),
    {
        let rr = f(Op::Mul, self.re, other.re);
        let ii = f(Op::Mul, self.im, other.im);
        let re = f(Op::Sub, rr, ii);
        let ri = f(Op::Mul, self.re, other.im);
        let ir = f(Op::Mul, self.im, other.re);
        let im = f(Op::Add, ri, ir);
        let r = Complex { re, im };
        proof {
            assert(yields(f, Op::Sub, rr, ii, r.re));
            assert(yields(f, Op::Add, ri, ir, r.im));
            assert(Self::product_of(f, self, other, r));
        }
        r
    }

    /// Divides by `other`, over the divisor term `other.re² − other.im²`.
    /// Where that term is zero the unit divides by zero and the parts that
    /// come back are whatever it answers to that.
    pub fn div<F: Fn(Op, u64, u64) -> u64>(self, other: Complex, f: &F) -> (r: Complex)
        requires
            total(f),
        ensures
            Self::quotient_of(f, self, other, r),
    {
        let rr = f(Op::Mul, other.re, other.re);
        let ii = f(Op::Mul, other.im, other.im);
        let d = f(Op::Sub, rr, ii);
        proof {
            assert(Self::divisor_of(f, other, d));
        }
        let ar = f(Op::Mul, self.re, other.re);
        let ai = f(Op::Mul, self.im, other.im);
        let n = f(Op::Add, ar, ai);
        let re = f(Op::Div, n, d);
        let br = f(Op::Mul, self.im, other.re);
        let bi = f(Op::Mul, self.re, other.im);
        let m = f(Op::Sub, br, bi);
        let im = f(Op::Div, m, d);
        let r = Complex { re, im };
        proof {
            assert(Self::quotient_over(f, self, other, d, r));
        }
        r
    }

    /// The squared magnitude `re² + im²`, by which two values are compared
    /// for their distance from zero.
    pub fn norm_sqr<F: Fn(Op, u64, u64) -> u64>(&self, f: &F) -> (m: u64)
        requires
            total(f),
        ensures
            Self::norm_of(f, *self, m),
    {
        let rr = f(Op::Mul, self.re, self.re);
        let ii = f(Op::Mul, self.im, self.im);
        f(Op::Add, rr, ii)
    }

    /// Tells whether `self` is strictly closer to zero than `other`, by
    /// squared magnitude. This orders distances, not complex numbers.
    pub fn closer_to_zero<F: Fn(Op, u64, u64) -> u64>(&self, other: &Complex, f: &F) -> (r: bool)
        requires
            total(f),
        ensures
            exists|m: u64, n: u64|
                #![trigger Self::norm_of(f, *self, m), Self::norm_of(f, *other, n)]
                Self::norm_of(f, *self, m) && Self::norm_of(f, *other, n) && r == crate::ieee::below(
                    m,
                    n,
                ),
    {
        let m = self.norm_sqr(f);
        let n = other.norm_sqr(f);
        crate::ieee::less_than(m, n)
    }

    /// Rounds each part to two decimals, for reporting.
    pub fn two_dec<F: Fn(Op, u64, u64) -> u64, R: Fn(u64) -> u64>(&self, f: &F, round: &R) -> (r:
        Complex)
        requires
            total(f),
            total_rounding(round),
        ensures
            Self::two_dec_of(f, round, *self, r),
    {
        let re_scaled = f(Op::Mul, self.re, HUNDRED);
        let re_whole = round(re_scaled);
        let re = f(Op::Div, re_whole, HUNDRED);
        proof {
            assert(Self::hundredths_of(f, round, self.re, re));
        }
        let im_scaled = f(Op::Mul, self.im, HUNDRED);
        let im_whole = round(im_scaled);
        let im = f(Op::Div, im_whole, HUNDRED);
        proof {
            assert(Self::hundredths_of(f, round, self.im, im));
        }
        Complex { re, im }
    }
}

/// With a unit that is a function, two complex numbers have one sum.
pub proof fn sum_is_single_valued<F: Fn(Op, u64, u64) -> u64>(
    f: &F,
    a: Complex,
    b: Complex,
    r1: Complex,
    r2: Complex,
)
    requires
        single_valued(f),
        Complex::sum_of(f, a, b, r1),
        Complex::sum_of(f, a, b, r2),
    ensures
        r1 == r2,
{
}

/// With a unit that is a function, two complex numbers have one product.
pub proof fn product_is_single_valued<F: Fn(Op, u64, u64) -> u64>(
    f: &F,
    a: Complex,
    b: Complex,
    r1: Complex,
    r2: Complex,
)
    requires
        single_valued(f),
        Complex::product_of(f, a, b, r1),
        Complex::product_of(f, a, b, r2),
    ensures
        r1 == r2,
{
}

/// With a unit that is a function, a complex number has one squared magnitude.
pub proof fn norm_is_single_valued<F: Fn(Op, u64, u64) -> u64>(f: &F, a: Complex, m1: u64, m2: u64)
    requires
        single_valued(f),
        Complex::norm_of(f, a, m1),
        Complex::norm_of(f, a, m2),
    ensures
        m1 == m2,
{
}

/// With a unit and a rounding that are functions, a complex number has one
/// rounding to two decimals.
pub proof fn two_dec_is_single_valued<F: Fn(Op, u64, u64) -> u64, R: Fn(u64) -> u64>(
    f: &F,
    round: &R,
    a: Complex,
    r1: Complex,
    r2: Complex,
)
    requires
        single_valued(f),
        single_valued_rounding(round),
        Complex::two_dec_of(f, round, a, r1),
        Complex::two_dec_of(f, round, a, r2),
    ensures
        r1 == r2,
{
}

impl Default for Complex {
    /// `0 + 0i`.
    fn default() -> (r: Complex)
        ensures
            r == Complex::origin(),
    {
        Complex { re: ZERO, im: ZERO }
    }
}

impl PartialEq for Complex {
    /// Equality of the values part by part: a NaN equals nothing, the two
    /// zeros equal each other.
    fn eq(&self, other: &Complex) -> (r: bool) {
        crate::ieee::equal(self.re, other.re) && crate::ieee::equal(self.im, other.im)
    }
}

impl vstd::std_specs::cmp::PartialEqSpecImpl for Complex {
    open spec fn obeys_eq_spec() -> bool {
        true
    }

    open spec fn eq_spec(&self, other: &Complex) -> bool {
        self.same_value(*other)
    }
}

impl From<u64> for Complex {
    /// The real number with the given pattern, as a complex number.
    fn from(val: u64) -> (r: Complex) {
        Complex { re: val, im: ZERO }
    }
}

impl vstd::std_specs::convert::FromSpecImpl<u64> for Complex {
    open spec fn obeys_from_spec() -> bool {
        true
    }

    open spec fn from_spec(val: u64) -> Complex {
        Complex { re: val, im: ZERO }
    }
}

} // verus!
