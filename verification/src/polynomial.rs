//! Polynomials as coefficient sequences, lowest power first.

use vstd::prelude::*;
use crate::complex::Complex;
use crate::complex::{product_is_single_valued, sum_is_single_valued};
use crate::unit::{single_valued, total, Op};

verus! {

/// A polynomial: index `k` holds the coefficient of `X^k`.
///
/// Trailing zero coefficients are allowed; `trim0s` removes them. The empty
/// sequence and every all-zero sequence stand for the zero polynomial.
#[derive(Debug)]
pub struct Polynomial {
    pub coefficients: Vec<Complex>,
}

impl View for Polynomial {
    type V = Seq<Complex>;

    open spec fn view(&self) -> Seq<Complex> {
        self.coefficients@
    }
}

/// The degree that a coefficient sequence reports: one less than its length,
/// and 0 for the empty sequence.
pub open spec fn degree_of(c: Seq<Complex>) -> nat {
    if c.len() == 0 {
        0
    } else {
        (c.len() - 1) as nat
    }
}

/// `c` extended with zero coefficients up to length `n`; `c` itself where it
/// is already that long.
pub open spec fn padded(c: Seq<Complex>, n: nat) -> Seq<Complex> {
    if c.len() < n {
        c + Seq::new((n - c.len()) as nat, |i: int| Complex::origin())
    } else {
        c
    }
}

/// From index `k` on, every coefficient of `c` is a zero.
pub open spec fn zero_from(c: Seq<Complex>, k: int) -> bool {
    forall|i: int| k <= i < c.len() ==> (#[trigger] c[i]).vanishes()
}

/// The length of `c` without its trailing zero coefficients.
pub open spec fn trimmed_len(c: Seq<Complex>) -> nat
    decreases c.len(),
{
    if c.len() == 0 {
        0
    } else if c.last().vanishes() {
        trimmed_len(c.drop_last())
    } else {
        c.len()
    }
}

/// `c` without its trailing zero coefficients.
pub open spec fn trimmed(c: Seq<Complex>) -> Seq<Complex> {
    c.take(trimmed_len(c) as int)
}

/// Step `i` of an evaluation at `x`: the term `powers[i] * c[i]` is added to
/// the running sum, and the running power is multiplied by `x`.
pub open spec fn evaluation_step<F: Fn(Op, u64, u64) -> u64>(
    f: &F,
    c: Seq<Complex>,
    x: Complex,
    sums: Seq<Complex>,
    powers: Seq<Complex>,
    i: int,
) -> bool {
    &&& exists|term: Complex|
        #![trigger Complex::product_of(f, powers[i], c[i], term)]
        Complex::product_of(f, powers[i], c[i], term) && Complex::sum_of(
            f,
            sums[i],
            term,
            sums[i + 1],
        )
    &&& Complex::product_of(f, powers[i], x, powers[i + 1])
}

/// `sums` and `powers` are the running sums and powers of an evaluation of
/// the first `n` coefficients at `x`, from the lowest power up: the sum
/// starts at `0`, the power at `1`.
pub open spec fn evaluation<F: Fn(Op, u64, u64) -> u64>(
    f: &F,
    c: Seq<Complex>,
    x: Complex,
    n: int,
    sums: Seq<Complex>,
    powers: Seq<Complex>,
) -> bool {
    &&& sums.len() == n + 1
    &&& powers.len() == n + 1
    &&& sums[0] == Complex::origin()
    &&& powers[0] == Complex::unity()
    &&& forall|i: int| 0 <= i < n ==> #[trigger] evaluation_step(f, c, x, sums, powers, i)
}

/// `r` is a value of the polynomial `c` at `x`: the last running sum of an
/// evaluation of all its coefficients.
pub open spec fn value_of<F: Fn(Op, u64, u64) -> u64>(
    f: &F,
    c: Seq<Complex>,
    x: Complex,
    r: Complex,
) -> bool {
    exists|sums: Seq<Complex>, powers: Seq<Complex>|
        #![trigger evaluation(f, c, x, c.len() as int, sums, powers)]
        evaluation(f, c, x, c.len() as int, sums, powers) && r == sums[c.len() as int]
}

/// What is carried into the step that computes the quotient's coefficient
/// `i`: zero at the top, the coefficient above `i` below it.
pub open spec fn carry_into(q: Seq<Complex>, i: int) -> Complex {
    if i + 1 == q.len() {
        Complex::origin()
    } else {
        q[i + 1]
    }
}

/// The quotient's coefficient `i` is the carry times the root plus the
/// dividend's coefficient one power up.
pub open spec fn deflation_step<F: Fn(Op, u64, u64) -> u64>(
    f: &F,
    c: Seq<Complex>,
    root: Complex,
    q: Seq<Complex>,
    i: int,
) -> bool {
    exists|scaled: Complex|
        #![trigger Complex::product_of(f, carry_into(q, i), root, scaled)]
        Complex::product_of(f, carry_into(q, i), root, scaled) && Complex::sum_of(
            f,
            scaled,
            c[i + 1],
            q[i],
        )
}

/// `q` is a quotient of `c` by `X − root`, by synthetic division from the
/// highest power down, the remainder dropped. It is one shorter than `c`;
/// of the empty sequence it is the empty sequence.
pub open spec fn deflation_of<F: Fn(Op, u64, u64) -> u64>(
    f: &F,
    c: Seq<Complex>,
    root: Complex,
    q: Seq<Complex>,
) -> bool {
    &&& q.len() == degree_of(c)
    &&& forall|i: int| 0 <= i < q.len() ==> #[trigger] deflation_step(f, c, root, q, i)
}

/// What is carried into step `k` of a division that runs from the highest
/// power down: zero at first, then the coefficient computed just before.
pub open spec fn carry_from(above: Seq<Complex>, k: int) -> Complex {
    if k == 0 {
        Complex::origin()
    } else {
        above[k - 1]
    }
}

/// Step `k` of a division that runs from the highest power down: `above[k]`
/// is the carry times the root plus the coefficient `k` below the top of `c`.
pub open spec fn descent_step<F: Fn(Op, u64, u64) -> u64>(
    f: &F,
    c: Seq<Complex>,
    root: Complex,
    above: Seq<Complex>,
    k: int,
) -> bool {
    exists|scaled: Complex|
        #![trigger Complex::product_of(f, carry_from(above, k), root, scaled)]
        Complex::product_of(f, carry_from(above, k), root, scaled) && Complex::sum_of(
            f,
            scaled,
            c[c.len() - 1 - k],
            above[k],
        )
}

impl Polynomial {
    /// The zero polynomial, with no coefficients.
    pub fn new() -> (p: Polynomial)
        ensures
            p@ == Seq::<Complex>::empty(),
    {
        Polynomial { coefficients: Vec::new() }
    }

    /// The number of coefficients held, trailing zeros included.
    pub fn length(&self) -> (n: usize)
        ensures
            n == self@.len(),
    {
        self.coefficients.len()
    }

    /// The highest power held: `max(length, 1) − 1`. The zero polynomial has
    /// degree 0.
    pub fn degree(&self) -> (d: usize)
        ensures
            d == degree_of(self@),
    {
        let n = self.coefficients.len();
        if n == 0 {
            0
        } else {
            n - 1
        }
    }

    /// Appends zero coefficients until `new_length` are held. Never shortens.
    pub fn add0s(&mut self, new_length: usize)
        ensures
            final(self)@ == padded(old(self)@, new_length as nat),
    {
        let ghost before = self@;
        while self.coefficients.len() < new_length
            invariant
                before.len() <= self@.len(),
                self@.len() <= new_length || self@ == before,
                self@ == padded(before, self@.len()),
            decreases new_length - self@.len(),
        {
            self.coefficients.push(Complex::default());
            proof {
                assert(self@ =~= padded(before, self@.len()));
            }
        }
        proof {
            assert(self@ =~= padded(before, new_length as nat));
        }
    }

    /// Removes trailing zero coefficients, of either sign, until the last
    /// coefficient is not zero or none is left.
    pub fn trim0s(&mut self)
        ensures
            final(self)@ == trimmed(old(self)@),
            final(self)@.len() <= old(self)@.len(),
            final(self)@ == old(self)@.take(final(self)@.len() as int),
            final(self)@.len() > 0 ==> !final(self)@.last().vanishes(),
            zero_from(old(self)@, final(self)@.len() as int),
    {
        let ghost before = self@;
        while self.coefficients.len() > 0 && self.coefficients[self.coefficients.len() - 1].is_zero()
            invariant
                self@.len() <= before.len(),
                self@ == before.take(self@.len() as int),
                trimmed_len(self@) == trimmed_len(before),
                zero_from(before, self@.len() as int),
            decreases self@.len(),
        {
            let ghost prev = self@;
            self.coefficients.pop();
            proof {
                assert(self@ =~= prev.drop_last());
                assert(self@ =~= before.take(self@.len() as int));
            }
        }
        proof {
            assert(self@ =~= before.take(trimmed_len(before) as int));
        }
    }

    /// Evaluates the polynomial at `x`, from the lowest power up: a running
    /// power starts at `1` and is multiplied by `x` after each term, and each
    /// term `power * coefficient` is added to a running sum that starts at `0`.
    pub fn value_at<F: Fn(Op, u64, u64) -> u64>(&self, x: Complex, f: &F) -> (r: Complex)
        requires
            total(f),
        ensures
            value_of(f, self@, x, r),
    {
        let mut factor = Complex::one();
        let mut solution = Complex::default();
        let ghost mut sums: Seq<Complex> = seq![solution];
        let ghost mut powers: Seq<Complex> = seq![factor];
        let mut i: usize = 0;
        while i < self.coefficients.len()
            invariant
                total(f),
                i <= self@.len(),
                evaluation(f, self@, x, i as int, sums, powers),
                sums[i as int] == solution,
                powers[i as int] == factor,
            decreases self@.len() - i,
        {
            let term = factor.mul(self.coefficients[i], f);
            let next_sum = solution.add(term, f);
            let next_power = factor.mul(x, f);
            proof {
                let ghost old_sums = sums;
                let ghost old_powers = powers;
                sums = sums.push(next_sum);
                powers = powers.push(next_power);
                assert forall|j: int| 0 <= j < i + 1 implies #[trigger] evaluation_step(
                    f,
                    self@,
                    x,
                    sums,
                    powers,
                    j,
                ) by {
                    if j < i {
                        assert(evaluation_step(f, self@, x, old_sums, old_powers, j));
                        assert(sums[j] == old_sums[j] && sums[j + 1] == old_sums[j + 1]);
                        assert(powers[j] == old_powers[j] && powers[j + 1] == old_powers[j + 1]);
                    } else {
                        assert(Complex::product_of(f, powers[j], self@[j], term));
                        assert(Complex::sum_of(f, sums[j], term, sums[j + 1]));
                    }
                }
            }
            solution = next_sum;
            factor = next_power;
            i += 1;
        }
        solution
    }

    /// Divides the polynomial by `X − div` in place and drops the remainder:
    /// from the highest power down, each new coefficient is the one computed
    /// before it times `div`, plus the old coefficient one power up. The
    /// polynomial ends one coefficient shorter. Returns `0`.
    pub fn horner<F: Fn(Op, u64, u64) -> u64>(&mut self, div: Complex, f: &F) -> (r: Complex)
        requires
            total(f),
        ensures
            deflation_of(f, old(self)@, div, final(self)@),
            r == Complex::origin(),
    {
        let ghost before = self@;
        let n = self.coefficients.len();
        if n == 0 {
            return Complex::default();
        }
        // the quotient from the highest power down: `above[k]` is the
        // coefficient of power `n - 2 - k`
        let mut above: Vec<Complex> = Vec::new();
        let mut carry = Complex::default();
        let mut i: usize = n - 1;
        while i > 0
            invariant
                total(f),
                self@ == before,
                n == before.len(),
                i < n,
                above@.len() == n - 1 - i,
                carry == if above@.len() == 0 {
                    Complex::origin()
                } else {
                    above@.last()
                },
                forall|k: int| 0 <= k < above@.len() ==> #[trigger] descent_step(f, before, div, above@, k),
            decreases i,
        {
            let scaled = carry.mul(div, f);
            let coefficient = scaled.add(self.coefficients[i], f);
            let ghost earlier = above@;
            above.push(coefficient);
            proof {
                assert forall|k: int| 0 <= k < above@.len() implies #[trigger] descent_step(
                    f,
                    before,
                    div,
                    above@,
                    k,
                ) by {
                    if k < earlier.len() {
                        assert(descent_step(f, before, div, earlier, k));
                        assert(above@[k] == earlier[k]);
                        assert(carry_from(above@, k) == carry_from(earlier, k));
                    } else {
                        assert(carry_from(above@, k) == carry);
                        assert(Complex::product_of(f, carry_from(above@, k), div, scaled));
                    }
                }
            }
            carry = coefficient;
            i -= 1;
        }
        self.coefficients.pop();
        let mut k: usize = 0;
        while k < above.len()
            invariant
                above@.len() == n - 1,
                self@.len() == n - 1,
                k <= above@.len(),
                forall|j: int| 0 <= j < k ==> self@[n - 2 - j] == #[trigger] above@[j],
            decreases above@.len() - k,
        {
            self.coefficients.set(n - 2 - k, above[k]);
            k += 1;
        }
        proof {
            assert forall|j: int| 0 <= j < self@.len() implies #[trigger] deflation_step(
                f,
                before,
                div,
                self@,
                j,
            ) by {
                let k = n - 2 - j;
                assert(self@[j] == above@[k]);
                if k > 0 {
                    assert(self@[j + 1] == above@[k - 1]);
                }
                assert(descent_step(f, before, div, above@, k));
                assert(carry_from(above@, k) == carry_into(self@, j));
                let scaled = choose|scaled: Complex|
                    Complex::product_of(f, carry_from(above@, k), div, scaled) && Complex::sum_of(
                        f,
                        scaled,
                        before[before.len() - 1 - k],
                        above@[k],
                    );
                assert(Complex::product_of(f, carry_into(self@, j), div, scaled));
                assert(Complex::sum_of(f, scaled, before[j + 1], self@[j]));
            }
        }
        Complex::default()
    }
}

/// What trimming keeps is a prefix that does not end in a zero, and all that
/// it drops are zeros.
pub proof fn trimmed_len_is_the_last_nonzero(c: Seq<Complex>)
    ensures
        trimmed_len(c) <= c.len(),
        zero_from(c, trimmed_len(c) as int),
        trimmed_len(c) > 0 ==> !c[trimmed_len(c) - 1].vanishes(),
    decreases c.len(),
{
    if c.len() > 0 && c.last().vanishes() {
        trimmed_len_is_the_last_nonzero(c.drop_last());
        let k = trimmed_len(c) as int;
        assert forall|i: int| k <= i < c.len() implies (#[trigger] c[i]).vanishes() by {
            if i < c.len() - 1 {
                assert(c.drop_last()[i] == c[i]);
            }
        }
        if k > 0 {
            assert(c.drop_last()[k - 1] == c[k - 1]);
        }
    }
}

/// The prefix that trimming keeps is the only one that does not end in a
/// zero and is followed by zeros alone.
pub proof fn trimmed_len_is_unique(c: Seq<Complex>, k: int)
    requires
        0 <= k <= c.len(),
        zero_from(c, k),
        k > 0 ==> !c[k - 1].vanishes(),
    ensures
        trimmed_len(c) == k,
    decreases c.len(),
{
    if c.len() > 0 && c.last().vanishes() {
        assert(k < c.len());
        assert forall|i: int| k <= i < c.drop_last().len() implies (#[trigger] c.drop_last()[i]).vanishes() by {
            assert(c.drop_last()[i] == c[i]);
        }
        if k > 0 {
            assert(c.drop_last()[k - 1] == c[k - 1]);
        }
        trimmed_len_is_unique(c.drop_last(), k);
    } else if c.len() > 0 {
        assert(!c[c.len() - 1].vanishes());
    }
}

/// Trimming what is trimmed changes nothing.
pub proof fn trimming_twice_is_trimming_once(c: Seq<Complex>)
    ensures
        trimmed(trimmed(c)) == trimmed(c),
{
    trimmed_len_is_the_last_nonzero(c);
    let t = trimmed(c);
    trimmed_len_is_unique(t, t.len() as int);
    assert(t.take(t.len() as int) =~= t);
}

/// Of a sequence of zeros nothing is left after trimming, however far it
/// was padded before: padding and then trimming the zero polynomial gives
/// the empty sequence.
pub proof fn padded_zeros_trim_to_nothing(c: Seq<Complex>, n: nat)
    requires
        zero_from(c, 0),
    ensures
        trimmed(c).len() == 0,
        padded(c, n).len() == if c.len() < n { n } else { c.len() },
        trimmed(padded(c, n)).len() == 0,
        degree_of(trimmed(padded(c, n))) == 0,
{
    trimmed_len_is_unique(c, 0);
    let p = padded(c, n);
    assert forall|i: int| 0 <= i < p.len() implies (#[trigger] p[i]).vanishes() by {
        if i < c.len() {
            assert(p[i] == c[i]);
        }
    }
    trimmed_len_is_unique(p, 0);
}

/// The value of a constant polynomial is `0 + 1 · c` as the unit computes
/// it, whatever the point.
pub proof fn value_of_a_constant<F: Fn(Op, u64, u64) -> u64>(f: &F, c: Complex, x: Complex, r: Complex)
    requires
        value_of(f, seq![c], x, r),
    ensures
        exists|term: Complex|
            #![trigger Complex::product_of(f, Complex::unity(), c, term)]
            Complex::product_of(f, Complex::unity(), c, term) && Complex::sum_of(
                f,
                Complex::origin(),
                term,
                r,
            ),
{
    let (sums, powers) = choose|sums: Seq<Complex>, powers: Seq<Complex>|
        #![trigger evaluation(f, seq![c], x, seq![c].len() as int, sums, powers)]
        evaluation(f, seq![c], x, seq![c].len() as int, sums, powers) && r == sums[seq![
            c,
        ].len() as int];
    assert(evaluation_step(f, seq![c], x, sums, powers, 0));
}

/// Where the unit multiplies by one and adds to zero without changing the
/// value, a constant polynomial has its constant as its value at every point.
/// Correctly rounded binary64 arithmetic does so for every finite constant;
/// of an infinite part or a NaN the product with zero is a NaN.
pub proof fn value_of_a_constant_is_the_constant<F: Fn(Op, u64, u64) -> u64>(
    f: &F,
    c: Complex,
    x: Complex,
    r: Complex,
)
    requires
        value_of(f, seq![c], x, r),
        forall|term: Complex, sum: Complex|
            #![trigger Complex::product_of(f, Complex::unity(), c, term), Complex::sum_of(f, Complex::origin(), term, sum)]
            Complex::product_of(f, Complex::unity(), c, term) && Complex::sum_of(
                f,
                Complex::origin(),
                term,
                sum,
            ) ==> sum.same_value(c),
    ensures
        r.same_value(c),
{
    value_of_a_constant(f, c, x, r);
}

/// A deflation of a polynomial that has a coefficient removes exactly one.
pub proof fn deflation_removes_one<F: Fn(Op, u64, u64) -> u64>(
    f: &F,
    c: Seq<Complex>,
    root: Complex,
    q: Seq<Complex>,
)
    requires
        deflation_of(f, c, root, q),
        c.len() > 0,
    ensures
        q.len() == c.len() - 1,
{
}

/// With a unit that is a function, two evaluations of the same coefficients
/// at the same point agree in every running sum and power.
pub proof fn evaluations_agree<F: Fn(Op, u64, u64) -> u64>(
    f: &F,
    c: Seq<Complex>,
    x: Complex,
    n: int,
    sums1: Seq<Complex>,
    powers1: Seq<Complex>,
    sums2: Seq<Complex>,
    powers2: Seq<Complex>,
    i: int,
)
    requires
        single_valued(f),
        evaluation(f, c, x, n, sums1, powers1),
        evaluation(f, c, x, n, sums2, powers2),
        0 <= i <= n,
    ensures
        sums1[i] == sums2[i],
        powers1[i] == powers2[i],
    decreases i,
{
    if i > 0 {
        evaluations_agree(f, c, x, n, sums1, powers1, sums2, powers2, i - 1);
        let j = i - 1;
        assert(evaluation_step(f, c, x, sums1, powers1, j));
        assert(evaluation_step(f, c, x, sums2, powers2, j));
        let t1 = choose|term: Complex|
            #![trigger Complex::product_of(f, powers1[j], c[j], term)]
            Complex::product_of(f, powers1[j], c[j], term) && Complex::sum_of(
                f,
                sums1[j],
                term,
                sums1[j + 1],
            );
        let t2 = choose|term: Complex|
            #![trigger Complex::product_of(f, powers2[j], c[j], term)]
            Complex::product_of(f, powers2[j], c[j], term) && Complex::sum_of(
                f,
                sums2[j],
                term,
                sums2[j + 1],
            );
        product_is_single_valued(f, powers1[j], c[j], t1, t2);
        sum_is_single_valued(f, sums1[j], t1, sums1[j + 1], sums2[j + 1]);
        product_is_single_valued(f, powers1[j], x, powers1[j + 1], powers2[j + 1]);
    }
}

/// With a unit that is a function, a polynomial has one value at a point.
pub proof fn value_is_single_valued<F: Fn(Op, u64, u64) -> u64>(
    f: &F,
    c: Seq<Complex>,
    x: Complex,
    r1: Complex,
    r2: Complex,
)
    requires
        single_valued(f),
        value_of(f, c, x, r1),
        value_of(f, c, x, r2),
    ensures
        r1 == r2,
{
    let n = c.len() as int;
    let (sums1, powers1) = choose|sums: Seq<Complex>, powers: Seq<Complex>|
        #![trigger evaluation(f, c, x, c.len() as int, sums, powers)]
        evaluation(f, c, x, c.len() as int, sums, powers) && r1 == sums[c.len() as int];
    let (sums2, powers2) = choose|sums: Seq<Complex>, powers: Seq<Complex>|
        #![trigger evaluation(f, c, x, c.len() as int, sums, powers)]
        evaluation(f, c, x, c.len() as int, sums, powers) && r2 == sums[c.len() as int];
    evaluations_agree(f, c, x, n, sums1, powers1, sums2, powers2, n);
}

/// With a unit that is a function, two quotients of the same polynomial by
/// the same root agree from coefficient `i` up.
pub proof fn deflations_agree<F: Fn(Op, u64, u64) -> u64>(
    f: &F,
    c: Seq<Complex>,
    root: Complex,
    q1: Seq<Complex>,
    q2: Seq<Complex>,
    i: int,
)
    requires
        single_valued(f),
        deflation_of(f, c, root, q1),
        deflation_of(f, c, root, q2),
        0 <= i < q1.len(),
    ensures
        q1[i] == q2[i],
    decreases q1.len() - i,
{
    if i + 1 < q1.len() {
        deflations_agree(f, c, root, q1, q2, i + 1);
    }
    assert(deflation_step(f, c, root, q1, i));
    assert(deflation_step(f, c, root, q2, i));
    let s1 = choose|scaled: Complex|
        #![trigger Complex::product_of(f, carry_into(q1, i), root, scaled)]
        Complex::product_of(f, carry_into(q1, i), root, scaled) && Complex::sum_of(
            f,
            scaled,
            c[i + 1],
            q1[i],
        );
    let s2 = choose|scaled: Complex|
        #![trigger Complex::product_of(f, carry_into(q2, i), root, scaled)]
        Complex::product_of(f, carry_into(q2, i), root, scaled) && Complex::sum_of(
            f,
            scaled,
            c[i + 1],
            q2[i],
        );
    product_is_single_valued(f, carry_into(q1, i), root, s1, s2);
    sum_is_single_valued(f, s1, c[i + 1], q1[i], q2[i]);
}

/// With a unit that is a function, a polynomial has one quotient by a root.
pub proof fn deflation_is_single_valued<F: Fn(Op, u64, u64) -> u64>(
    f: &F,
    c: Seq<Complex>,
    root: Complex,
    q1: Seq<Complex>,
    q2: Seq<Complex>,
)
    requires
        single_valued(f),
        deflation_of(f, c, root, q1),
        deflation_of(f, c, root, q2),
    ensures
        q1 == q2,
{
    assert forall|i: int| 0 <= i < q1.len() implies q1[i] == q2[i] by {
        deflations_agree(f, c, root, q1, q2, i);
    }
    assert(q1 =~= q2);
}

impl Default for Polynomial {
    /// The zero polynomial, with no coefficients.
    fn default() -> (p: Polynomial)
        ensures
            p@ == Seq::<Complex>::empty(),
    {
        Polynomial { coefficients: Vec::new() }
    }
}

} // verus!
