//! The root-extraction driver: locate a root, record it, deflate, trim, and
//! again, once per degree of the polynomial that it started with.

use vstd::prelude::*;
use crate::complex::Complex;
use crate::complex::two_dec_is_single_valued;
use crate::locator::{located, located_is_single_valued};
use crate::polynomial::{
    deflation_is_single_valued, deflation_of, degree_of, trimmed, trimmed_len_is_unique, zero_from,
    Polynomial,
};
use crate::unit::{single_valued, single_valued_rounding, total, total_rounding, Op};

verus! {

/// A root extraction under way.
///
/// The number of rounds is fixed when the extraction starts, at the degree
/// of the trimmed polynomial, and is not looked at again: where a deflation
/// leaves more than one trailing zero, the later rounds run on a polynomial
/// of lower degree than their number, down to the empty one, and still
/// record what the locator returns.
#[derive(Debug)]
pub struct Extraction {
    /// What is left of the polynomial after the rounds so far.
    pub polynomial: Polynomial,
    /// The roots recorded so far, rounded to two decimals, in the order found.
    pub roots: Vec<Complex>,
    /// The rounds still to run.
    pub remaining: usize,
}

/// An extraction as plain values.
pub struct ExtractionView {
    pub polynomial: Seq<Complex>,
    pub roots: Seq<Complex>,
    pub remaining: nat,
}

impl View for Extraction {
    type V = ExtractionView;

    open spec fn view(&self) -> ExtractionView {
        ExtractionView {
            polynomial: self.polynomial@,
            roots: self.roots@,
            remaining: self.remaining as nat,
        }
    }
}

/// The state that an extraction from the polynomial `c` starts in: `c`
/// trimmed, no roots, as many rounds to run as the degree of that.
pub open spec fn opening(c: Seq<Complex>) -> ExtractionView {
    ExtractionView {
        polynomial: trimmed(c),
        roots: Seq::empty(),
        remaining: degree_of(trimmed(c)),
    }
}

/// One round on the polynomial `c` can record `root` and leave `rest`:
/// the locator ends at some point, `rest` is a quotient of `c` by that point
/// as it was found, trimmed, and `root` is that point rounded to two decimals.
pub open spec fn round_of<F: Fn(Op, u64, u64) -> u64, R: Fn(u64) -> u64>(
    f: &F,
    round: &R,
    c: Seq<Complex>,
    root: Complex,
    rest: Seq<Complex>,
) -> bool {
    exists|z: Complex, q: Seq<Complex>|
        #![trigger deflation_of(f, c, z, q)]
        {
            &&& located(f, c, z)
            &&& deflation_of(f, c, z, q)
            &&& rest == trimmed(q)
            &&& Complex::two_dec_of(f, round, z, root)
        }
}

/// `t` follows `s` by one round: one root more, one round less to run.
pub open spec fn step_of<F: Fn(Op, u64, u64) -> u64, R: Fn(u64) -> u64>(
    f: &F,
    round: &R,
    s: ExtractionView,
    t: ExtractionView,
) -> bool {
    &&& s.remaining > 0
    &&& t.remaining == s.remaining - 1
    &&& t.roots.len() == s.roots.len() + 1
    &&& t.roots.drop_last() == s.roots
    &&& round_of(f, round, s.polynomial, t.roots.last(), t.polynomial)
}

/// `trace` is a run of rounds: each state follows the one before by one round.
pub open spec fn rounds_run<F: Fn(Op, u64, u64) -> u64, R: Fn(u64) -> u64>(
    f: &F,
    round: &R,
    trace: Seq<ExtractionView>,
) -> bool {
    &&& trace.len() >= 1
    &&& forall|i: int|
        0 <= i < trace.len() - 1 ==> #[trigger] step_of(f, round, trace[i], trace[i + 1])
}

/// `t` can be reached from `s` by running every round that `s` has left.
pub open spec fn completion_of<F: Fn(Op, u64, u64) -> u64, R: Fn(u64) -> u64>(
    f: &F,
    round: &R,
    s: ExtractionView,
    t: ExtractionView,
) -> bool {
    exists|trace: Seq<ExtractionView>|
        #![trigger rounds_run(f, round, trace)]
        {
            &&& rounds_run(f, round, trace)
            &&& trace.len() == s.remaining + 1
            &&& trace[0] == s
            &&& trace.last() == t
        }
}

/// `roots` is a root set of the polynomial `c`: what a whole extraction from
/// `c` can record.
pub open spec fn roots_of<F: Fn(Op, u64, u64) -> u64, R: Fn(u64) -> u64>(
    f: &F,
    round: &R,
    c: Seq<Complex>,
    roots: Seq<Complex>,
) -> bool {
    exists|t: ExtractionView|
        #![trigger completion_of(f, round, opening(c), t)]
        completion_of(f, round, opening(c), t) && t.roots == roots
}

impl Extraction {
    /// Starts an extraction: trims the polynomial and fixes the number of
    /// rounds at its degree.
    pub fn new(polynomial: Polynomial) -> (e: Extraction)
        ensures
            e@ == opening(polynomial@),
    {
        let mut polynomial = polynomial;
        polynomial.trim0s();
        let remaining = polynomial.degree();
        Extraction { polynomial, roots: Vec::new(), remaining }
    }

    /// Tells whether every round has run.
    pub fn is_done(&self) -> (r: bool)
        ensures
            r == (self@.remaining == 0),
    {
        self.remaining == 0
    }

    /// Runs one round, if one is left: locates a root, deflates the
    /// polynomial by it as found, trims, and records the root rounded to two
    /// decimals. Returns whether a round ran.
    pub fn step<F: Fn(Op, u64, u64) -> u64, R: Fn(u64) -> u64>(&mut self, f: &F, round: &R) -> (ran:
        bool)
        requires
            total(f),
            total_rounding(round),
        ensures
            ran == (old(self)@.remaining > 0),
            ran ==> step_of(f, round, old(self)@, final(self)@),
            !ran ==> final(self)@ == old(self)@,
    {
        if self.remaining == 0 {
            return false;
        }
        let ghost before = self@;
        let solution = self.polynomial.search_min(f);
        self.polynomial.horner(solution, f);
        let ghost quotient = self.polynomial@;
        self.polynomial.trim0s();
        let root = solution.two_dec(f, round);
        self.roots.push(root);
        self.remaining = self.remaining - 1;
        proof {
            assert(deflation_of(f, before.polynomial, solution, quotient));
            assert(self@.roots.drop_last() =~= before.roots);
            assert(round_of(f, round, before.polynomial, root, self@.polynomial));
        }
        true
    }

    /// Runs every round that is left.
    pub fn run<F: Fn(Op, u64, u64) -> u64, R: Fn(u64) -> u64>(&mut self, f: &F, round: &R)
        requires
            total(f),
            total_rounding(round),
        ensures
            completion_of(f, round, old(self)@, final(self)@),
            final(self)@.remaining == 0,
            final(self)@.roots.len() == old(self)@.roots.len() + old(self)@.remaining,
    {
        let ghost before = self@;
        let ghost mut trace: Seq<ExtractionView> = seq![self@];
        while self.remaining > 0
            invariant
                total(f),
                total_rounding(round),
                rounds_run(f, round, trace),
                trace[0] == before,
                trace.last() == self@,
                trace.len() + self@.remaining == before.remaining + 1,
                self@.roots.len() + self@.remaining == before.roots.len() + before.remaining,
            decreases self.remaining,
        {
            let ghost earlier = trace;
            let ghost previous = self@;
            self.step(f, round);
            proof {
                trace = trace.push(self@);
                assert forall|i: int| 0 <= i < trace.len() - 1 implies #[trigger] step_of(
                    f,
                    round,
                    trace[i],
                    trace[i + 1],
                ) by {
                    if i < earlier.len() - 1 {
                        assert(step_of(f, round, earlier[i], earlier[i + 1]));
                        assert(trace[i] == earlier[i] && trace[i + 1] == earlier[i + 1]);
                    } else {
                        assert(trace[i] == previous && trace[i + 1] == self@);
                    }
                }
                assert(trace[0] == earlier[0]);
            }
        }
    }
}

/// A completed extraction has recorded one root per round that it had left.
pub proof fn completion_records_every_round<F: Fn(Op, u64, u64) -> u64, R: Fn(u64) -> u64>(
    f: &F,
    round: &R,
    s: ExtractionView,
    t: ExtractionView,
)
    requires
        completion_of(f, round, s, t),
    ensures
        t.remaining == 0,
        t.roots.len() == s.roots.len() + s.remaining,
        t.roots.take(s.roots.len() as int) == s.roots,
{
    let trace = choose|trace: Seq<ExtractionView>|
        #![trigger rounds_run(f, round, trace)]
        {
            &&& rounds_run(f, round, trace)
            &&& trace.len() == s.remaining + 1
            &&& trace[0] == s
            &&& trace.last() == t
        };
    rounds_count_down(f, round, trace, trace.len() - 1);
}

/// Along a run of rounds, state `i` has `i` roots more than the first and
/// `i` rounds less to run, and keeps the roots that the first had.
pub proof fn rounds_count_down<F: Fn(Op, u64, u64) -> u64, R: Fn(u64) -> u64>(
    f: &F,
    round: &R,
    trace: Seq<ExtractionView>,
    i: int,
)
    requires
        rounds_run(f, round, trace),
        0 <= i < trace.len(),
    ensures
        trace[i].remaining + i == trace[0].remaining,
        trace[i].roots.len() == trace[0].roots.len() + i,
        trace[i].roots.take(trace[0].roots.len() as int) == trace[0].roots,
    decreases i,
{
    if i > 0 {
        rounds_count_down(f, round, trace, i - 1);
        assert(step_of(f, round, trace[i - 1], trace[i - 1 + 1]));
        let before = trace[i - 1].roots;
        let after = trace[i].roots;
        assert(after.drop_last() == before);
        assert(after.take(trace[0].roots.len() as int) =~= before.take(trace[0].roots.len() as int));
    } else {
        assert(trace[0].roots.take(trace[0].roots.len() as int) =~= trace[0].roots);
    }
}

/// A root set has as many roots as the degree of the trimmed polynomial:
/// that many rounds are run, no more and no fewer.
pub proof fn one_root_per_degree<F: Fn(Op, u64, u64) -> u64, R: Fn(u64) -> u64>(
    f: &F,
    round: &R,
    c: Seq<Complex>,
    roots: Seq<Complex>,
)
    requires
        roots_of(f, round, c, roots),
    ensures
        roots.len() == degree_of(trimmed(c)),
{
    let t = choose|t: ExtractionView|
        #![trigger completion_of(f, round, opening(c), t)]
        completion_of(f, round, opening(c), t) && t.roots == roots;
    completion_records_every_round(f, round, opening(c), t);
}

/// The zero polynomial, empty or all zeros, has degree 0 once trimmed and an
/// empty root set: no round is run on it.
pub proof fn zero_polynomial_has_no_roots<F: Fn(Op, u64, u64) -> u64, R: Fn(u64) -> u64>(
    f: &F,
    round: &R,
    c: Seq<Complex>,
    roots: Seq<Complex>,
)
    requires
        zero_from(c, 0),
        roots_of(f, round, c, roots),
    ensures
        degree_of(trimmed(c)) == 0,
        opening(c).remaining == 0,
        roots.len() == 0,
{
    trimmed_len_is_unique(c, 0);
    one_root_per_degree(f, round, c, roots);
}

/// With a unit and a rounding that are functions, a round on a polynomial
/// records one root and leaves one polynomial.
pub proof fn round_is_single_valued<F: Fn(Op, u64, u64) -> u64, R: Fn(u64) -> u64>(
    f: &F,
    round: &R,
    c: Seq<Complex>,
    root1: Complex,
    rest1: Seq<Complex>,
    root2: Complex,
    rest2: Seq<Complex>,
)
    requires
        single_valued(f),
        single_valued_rounding(round),
        round_of(f, round, c, root1, rest1),
        round_of(f, round, c, root2, rest2),
    ensures
        root1 == root2,
        rest1 == rest2,
{
    let (z1, q1) = choose|z: Complex, q: Seq<Complex>|
        #![trigger deflation_of(f, c, z, q)]
        {
            &&& located(f, c, z)
            &&& deflation_of(f, c, z, q)
            &&& rest1 == trimmed(q)
            &&& Complex::two_dec_of(f, round, z, root1)
        };
    let (z2, q2) = choose|z: Complex, q: Seq<Complex>|
        #![trigger deflation_of(f, c, z, q)]
        {
            &&& located(f, c, z)
            &&& deflation_of(f, c, z, q)
            &&& rest2 == trimmed(q)
            &&& Complex::two_dec_of(f, round, z, root2)
        };
    located_is_single_valued(f, c, z1, z2);
    deflation_is_single_valued(f, c, z1, q1, q2);
    two_dec_is_single_valued(f, round, z1, root1, root2);
}

/// With a unit and a rounding that are functions, two runs of rounds from
/// the same state agree in every state that both have.
pub proof fn rounds_agree<F: Fn(Op, u64, u64) -> u64, R: Fn(u64) -> u64>(
    f: &F,
    round: &R,
    trace1: Seq<ExtractionView>,
    trace2: Seq<ExtractionView>,
    i: int,
)
    requires
        single_valued(f),
        single_valued_rounding(round),
        rounds_run(f, round, trace1),
        rounds_run(f, round, trace2),
        trace1[0] == trace2[0],
        0 <= i < trace1.len(),
        i < trace2.len(),
    ensures
        trace1[i] == trace2[i],
    decreases i,
{
    if i > 0 {
        rounds_agree(f, round, trace1, trace2, i - 1);
        assert(step_of(f, round, trace1[i - 1], trace1[i - 1 + 1]));
        assert(step_of(f, round, trace2[i - 1], trace2[i - 1 + 1]));
        let s = trace1[i - 1];
        let t1 = trace1[i];
        let t2 = trace2[i];
        round_is_single_valued(
            f,
            round,
            s.polynomial,
            t1.roots.last(),
            t1.polynomial,
            t2.roots.last(),
            t2.polynomial,
        );
        assert(t1.roots =~= t1.roots.drop_last().push(t1.roots.last()));
        assert(t2.roots =~= t2.roots.drop_last().push(t2.roots.last()));
    }
}

/// With a unit and a rounding that are functions, a polynomial has one root
/// set: extracted again from the same coefficients, the same roots come out
/// in the same order, pattern for pattern.
pub proof fn roots_are_single_valued<F: Fn(Op, u64, u64) -> u64, R: Fn(u64) -> u64>(
    f: &F,
    round: &R,
    c: Seq<Complex>,
    roots1: Seq<Complex>,
    roots2: Seq<Complex>,
)
    requires
        single_valued(f),
        single_valued_rounding(round),
        roots_of(f, round, c, roots1),
        roots_of(f, round, c, roots2),
    ensures
        roots1 == roots2,
{
    let t1 = choose|t: ExtractionView|
        #![trigger completion_of(f, round, opening(c), t)]
        completion_of(f, round, opening(c), t) && t.roots == roots1;
    let t2 = choose|t: ExtractionView|
        #![trigger completion_of(f, round, opening(c), t)]
        completion_of(f, round, opening(c), t) && t.roots == roots2;
    let trace1 = choose|trace: Seq<ExtractionView>|
        #![trigger rounds_run(f, round, trace)]
        {
            &&& rounds_run(f, round, trace)
            &&& trace.len() == opening(c).remaining + 1
            &&& trace[0] == opening(c)
            &&& trace.last() == t1
        };
    let trace2 = choose|trace: Seq<ExtractionView>|
        #![trigger rounds_run(f, round, trace)]
        {
            &&& rounds_run(f, round, trace)
            &&& trace.len() == opening(c).remaining + 1
            &&& trace[0] == opening(c)
            &&& trace.last() == t2
        };
    rounds_agree(f, round, trace1, trace2, trace1.len() - 1);
}

/// Extracts the roots of a polynomial: as many as the degree of the trimmed
/// polynomial, in the order found, each rounded to two decimals. The zero
/// polynomial and every constant have none.
pub fn find_roots<F: Fn(Op, u64, u64) -> u64, R: Fn(u64) -> u64>(
    polynomial: Polynomial,
    f: &F,
    round: &R,
) -> (roots: Vec<Complex>)
    requires
        total(f),
        total_rounding(round),
    ensures
        roots_of(f, round, polynomial@, roots@),
        roots@.len() == degree_of(trimmed(polynomial@)),
{
    let mut extraction = Extraction::new(polynomial);
    extraction.run(f, round);
    proof {
        assert(completion_of(f, round, opening(polynomial@), extraction@));
    }
    extraction.roots
}

} // verus!
