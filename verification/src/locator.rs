//! The root locator: a compass search for a point where the polynomial's
//! magnitude is small.
//!
//! The search keeps a point and two step sizes. Each probe looks at the four
//! points diagonal to the current one, moves to the first that is strictly
//! closer to a root by squared magnitude, and halves the imaginary step. After
//! a fixed number of probes, or as soon as the polynomial is exactly zero at
//! the point, the real step is halved and the imaginary step starts again
//! from it. The search ends after a fixed number of such rounds: it always
//! ends, and it makes no promise that what it returns is near a root.

use vstd::prelude::*;
use crate::complex::Complex;
use crate::ieee::{below, half, halvable, opposite, EXPONENT_STEP};
use crate::complex::{norm_is_single_valued, sum_is_single_valued};
use crate::polynomial::{value_is_single_valued, value_of, Polynomial};
use crate::unit::{single_valued, total, Op};

verus! {

/// The number of rounds of a search, and the most probes in one round.
pub const ROUNDS: usize = 150;

/// The pattern of `1e20`, the step that a search starts with.
pub const FIRST_STEP: u64 = 0x4415_AF1D_78B5_8C40;

/// What was found at a point: the polynomial's value there and the squared
/// magnitude of that value.
#[derive(Clone, Copy, Debug)]
pub struct Reading {
    pub point: Complex,
    pub value: Complex,
    pub norm: u64,
}

/// The state of a search between two probes.
#[derive(Clone, Copy, Debug)]
pub struct Search {
    /// The best point so far.
    pub solution: Complex,
    /// The step along the real axis.
    pub step_re: u64,
    /// The step along the imaginary axis.
    pub step_im: u64,
    /// The rounds that are over.
    pub outer: usize,
    /// The probes made in the current round.
    pub inner: usize,
}

/// `r` is a reading of the polynomial `c` at `z`.
pub open spec fn reading_of<F: Fn(Op, u64, u64) -> u64>(
    f: &F,
    c: Seq<Complex>,
    z: Complex,
    r: Reading,
) -> bool {
    r.point == z && value_of(f, c, z, r.value) && Complex::norm_of(f, r.value, r.norm)
}

/// The candidate that a probe prefers: the first of the four whose squared
/// magnitude is strictly below the one at the current point, if there is one.
pub open spec fn choice(here: Reading, around: Seq<Reading>) -> Option<int> {
    if below(around[0].norm, here.norm) {
        Some(0int)
    } else if below(around[1].norm, here.norm) {
        Some(1int)
    } else if below(around[2].norm, here.norm) {
        Some(2int)
    } else if below(around[3].norm, here.norm) {
        Some(3int)
    } else {
        None
    }
}

impl Search {
    /// The state that every search starts in: at `0`, with the largest step.
    pub open spec fn start() -> Search {
        Search {
            solution: Complex::origin(),
            step_re: FIRST_STEP,
            step_im: FIRST_STEP,
            outer: 0,
            inner: 0,
        }
    }

    /// All rounds are over.
    pub open spec fn finished(self) -> bool {
        self.outer == ROUNDS
    }

    /// The counters are in range and the steps are what the counters say:
    /// the real step has been halved once per round, the imaginary step once
    /// more per probe of the current round.
    pub open spec fn wf(self) -> bool {
        &&& self.outer <= ROUNDS
        &&& self.inner < ROUNDS
        &&& self.finished() ==> self.inner == 0
        &&& self.step_re == FIRST_STEP - self.outer * EXPONENT_STEP
        &&& self.step_im == self.step_re - self.inner * EXPONENT_STEP
    }

    /// The probes made so far are at least this many.
    pub open spec fn least_spent(self) -> int {
        self.outer + self.inner
    }

    /// The probes made so far are at most this many.
    pub open spec fn most_spent(self) -> int {
        self.outer * ROUNDS + self.inner
    }

    /// The offset to candidate `k`: `(re, im)`, `(−re, im)`, `(re, −im)`,
    /// `(−re, −im)`, in this order.
    pub open spec fn offset_of(self, k: int) -> Complex {
        Complex {
            re: if k == 1 || k == 3 {
                opposite(self.step_re)
            } else {
                self.step_re
            },
            im: if k == 2 || k == 3 {
                opposite(self.step_im)
            } else {
                self.step_im
            },
        }
    }

    /// The state after a probe that left the search at `solution`, where the
    /// polynomial is exactly zero or not. On a zero, and after the last probe
    /// of a round, the round ends: the real step is halved and the imaginary
    /// step starts from it again. Otherwise only the imaginary step is halved.
    pub open spec fn next(self, solution: Complex, at_zero: bool) -> Search {
        if at_zero || self.inner + 1 == ROUNDS {
            Search {
                solution,
                step_re: half(self.step_re),
                step_im: half(self.step_re),
                outer: (self.outer + 1) as usize,
                inner: 0,
            }
        } else {
            Search {
                solution,
                step_re: self.step_re,
                step_im: half(self.step_im),
                outer: self.outer,
                inner: (self.inner + 1) as usize,
            }
        }
    }

    /// The state after a probe with the given readings: the search moves to
    /// the preferred candidate, or stays, and goes on by what the polynomial's
    /// value is at the point where it now stands.
    pub open spec fn after(self, here: Reading, around: Seq<Reading>) -> Search {
        match choice(here, around) {
            Some(k) => self.next(around[k].point, around[k].value.vanishes()),
            None => self.next(self.solution, here.value.vanishes()),
        }
    }

    /// `t` follows `s` by one probe of the polynomial `c`: there are readings
    /// at the current point and at its four candidates, each candidate the
    /// current point plus its offset, and `t` is the state after them.
    pub open spec fn probe_of<F: Fn(Op, u64, u64) -> u64>(
        f: &F,
        c: Seq<Complex>,
        s: Search,
        t: Search,
    ) -> bool {
        exists|here: Reading, around: Seq<Reading>|
            #![trigger s.after(here, around)]
            {
                &&& around.len() == 4
                &&& reading_of(f, c, s.solution, here)
                &&& forall|k: int|
                    0 <= k < 4 ==> Complex::sum_of(f, s.solution, s.offset_of(k), (#[trigger] around[k]).point)
                        && reading_of(f, c, around[k].point, around[k])
                &&& t == s.after(here, around)
            }
    }

    /// The state that every search starts in.
    pub fn new() -> (s: Search)
        ensures
            s == Self::start(),
            s.wf(),
            !s.finished(),
    {
        Search {
            solution: Complex::default(),
            step_re: FIRST_STEP,
            step_im: FIRST_STEP,
            outer: 0,
            inner: 0,
        }
    }

    /// Tells whether all rounds are over.
    pub fn is_done(&self) -> (r: bool)
        ensures
            r == self.finished(),
    {
        self.outer == ROUNDS
    }

    /// The offset from the current point to candidate `k`.
    pub fn offset(&self, k: usize) -> (r: Complex)
        requires
            k < 4,
        ensures
            r == self.offset_of(k as int),
    {
        let re = if k == 1 || k == 3 {
            crate::ieee::negate(self.step_re)
        } else {
            self.step_re
        };
        let im = if k == 2 || k == 3 {
            crate::ieee::negate(self.step_im)
        } else {
            self.step_im
        };
        Complex { re, im }
    }

    /// Picks the candidate to move to: the first whose squared magnitude is
    /// strictly below the one at the current point. At most one move is made
    /// per probe, even where several candidates are closer.
    pub fn choose_move(here: &Reading, around: &[Reading; 4]) -> (r: Option<usize>)
        ensures
            match r {
                Some(k) => choice(*here, around@) == Some(k as int),
                None => choice(*here, around@) == None::<int>,
            },
    {
        if crate::ieee::less_than(around[0].norm, here.norm) {
            Some(0)
        } else if crate::ieee::less_than(around[1].norm, here.norm) {
            Some(1)
        } else if crate::ieee::less_than(around[2].norm, here.norm) {
            Some(2)
        } else if crate::ieee::less_than(around[3].norm, here.norm) {
            Some(3)
        } else {
            None
        }
    }

    /// Takes the readings of one probe and moves the search on.
    pub fn advance(&mut self, here: &Reading, around: &[Reading; 4])
        requires
            old(self).wf(),
            !old(self).finished(),
        ensures
            *final(self) == old(self).after(*here, around@),
            final(self).wf(),
            final(self).least_spent() == old(self).least_spent() + 1 || final(self).outer == old(
                self,
            ).outer + 1,
            final(self).most_spent() > old(self).most_spent(),
            final(self).most_spent() <= old(self).most_spent() + ROUNDS,
    {
        let (solution, at_zero) = match Self::choose_move(here, around) {
            Some(k) => (around[k].point, around[k].value.is_zero()),
            None => (self.solution, here.value.is_zero()),
        };
        proof {
            Self::steps_are_halvable(*self);
        }
        self.solution = solution;
        if at_zero || self.inner + 1 == ROUNDS {
            let step = crate::ieee::halve(self.step_re);
            self.step_re = step;
            self.step_im = step;
            self.outer = self.outer + 1;
            self.inner = 0;
        } else {
            self.step_im = crate::ieee::halve(self.step_im);
            self.inner = self.inner + 1;
        }
    }

    /// The steps of a search never leave the normal numbers: each can be
    /// halved exactly, in every state that a search can reach.
    pub proof fn steps_are_halvable(s: Search)
        requires
            s.wf(),
        ensures
            halvable(s.step_re),
            halvable(s.step_im),
            !crate::ieee::negative(s.step_re),
            !crate::ieee::negative(s.step_im),
    {
        assert(s.outer * EXPONENT_STEP <= 150 * 0x0010_0000_0000_0000) by (nonlinear_arith)
            requires
                s.outer <= 150,
                EXPONENT_STEP == 0x0010_0000_0000_0000,
        ;
        assert(s.inner * EXPONENT_STEP <= 150 * 0x0010_0000_0000_0000) by (nonlinear_arith)
            requires
                s.inner <= 150,
                EXPONENT_STEP == 0x0010_0000_0000_0000,
        ;
    }
}

/// `trace` is a run of the search on the polynomial `c`: it starts in the
/// start state, each state follows the one before by one probe, and only the
/// last state is finished.
pub open spec fn search_run<F: Fn(Op, u64, u64) -> u64>(
    f: &F,
    c: Seq<Complex>,
    trace: Seq<Search>,
) -> bool {
    &&& trace.len() >= 1
    &&& trace[0] == Search::start()
    &&& forall|i: int| 0 <= i < trace.len() - 1 ==> !(#[trigger] trace[i]).finished()
    &&& forall|i: int|
        0 <= i < trace.len() - 1 ==> #[trigger] Search::probe_of(f, c, trace[i], trace[i + 1])
}

/// `z` is a point that the search can end at on the polynomial `c`: the
/// solution of the finished state of a run. A run makes at least one probe
/// per round and at most `ROUNDS` of them.
pub open spec fn located<F: Fn(Op, u64, u64) -> u64>(f: &F, c: Seq<Complex>, z: Complex) -> bool {
    exists|trace: Seq<Search>|
        #![trigger search_run(f, c, trace)]
        {
            &&& search_run(f, c, trace)
            &&& trace.last().finished()
            &&& trace.last().solution == z
            &&& ROUNDS < trace.len() <= ROUNDS * ROUNDS + 1
        }
}

/// With a unit that is a function, a polynomial has one reading at a point.
pub proof fn reading_is_single_valued<F: Fn(Op, u64, u64) -> u64>(
    f: &F,
    c: Seq<Complex>,
    z: Complex,
    r1: Reading,
    r2: Reading,
)
    requires
        single_valued(f),
        reading_of(f, c, z, r1),
        reading_of(f, c, z, r2),
    ensures
        r1 == r2,
{
    value_is_single_valued(f, c, z, r1.value, r2.value);
    norm_is_single_valued(f, r1.value, r1.norm, r2.norm);
}

/// With a unit that is a function, a state of the search has one successor.
pub proof fn probe_is_single_valued<F: Fn(Op, u64, u64) -> u64>(
    f: &F,
    c: Seq<Complex>,
    s: Search,
    t1: Search,
    t2: Search,
)
    requires
        single_valued(f),
        Search::probe_of(f, c, s, t1),
        Search::probe_of(f, c, s, t2),
    ensures
        t1 == t2,
{
    let (here1, around1) = choose|here: Reading, around: Seq<Reading>|
        #![trigger s.after(here, around)]
        {
            &&& around.len() == 4
            &&& reading_of(f, c, s.solution, here)
            &&& forall|k: int|
                0 <= k < 4 ==> Complex::sum_of(f, s.solution, s.offset_of(k), (#[trigger] around[k]).point)
                    && reading_of(f, c, around[k].point, around[k])
            &&& t1 == s.after(here, around)
        };
    let (here2, around2) = choose|here: Reading, around: Seq<Reading>|
        #![trigger s.after(here, around)]
        {
            &&& around.len() == 4
            &&& reading_of(f, c, s.solution, here)
            &&& forall|k: int|
                0 <= k < 4 ==> Complex::sum_of(f, s.solution, s.offset_of(k), (#[trigger] around[k]).point)
                    && reading_of(f, c, around[k].point, around[k])
            &&& t2 == s.after(here, around)
        };
    reading_is_single_valued(f, c, s.solution, here1, here2);
    assert forall|k: int| 0 <= k < 4 implies around1[k] == around2[k] by {
        sum_is_single_valued(f, s.solution, s.offset_of(k), around1[k].point, around2[k].point);
        reading_is_single_valued(f, c, around1[k].point, around1[k], around2[k]);
    }
    assert(around1 =~= around2);
}

/// With a unit that is a function, two runs of the search on the same
/// polynomial agree in every state that both have.
pub proof fn runs_agree<F: Fn(Op, u64, u64) -> u64>(
    f: &F,
    c: Seq<Complex>,
    trace1: Seq<Search>,
    trace2: Seq<Search>,
    i: int,
)
    requires
        single_valued(f),
        search_run(f, c, trace1),
        search_run(f, c, trace2),
        0 <= i < trace1.len(),
        i < trace2.len(),
    ensures
        trace1[i] == trace2[i],
    decreases i,
{
    if i > 0 {
        runs_agree(f, c, trace1, trace2, i - 1);
        assert(Search::probe_of(f, c, trace1[i - 1], trace1[i - 1 + 1]));
        assert(Search::probe_of(f, c, trace2[i - 1], trace2[i - 1 + 1]));
        probe_is_single_valued(f, c, trace1[i - 1], trace1[i], trace2[i]);
    }
}

/// With a unit that is a function, the search ends at one point: run again
/// on the same polynomial it returns the same patterns.
pub proof fn located_is_single_valued<F: Fn(Op, u64, u64) -> u64>(
    f: &F,
    c: Seq<Complex>,
    z1: Complex,
    z2: Complex,
)
    requires
        single_valued(f),
        located(f, c, z1),
        located(f, c, z2),
    ensures
        z1 == z2,
{
    let trace1 = choose|trace: Seq<Search>|
        #![trigger search_run(f, c, trace)]
        {
            &&& search_run(f, c, trace)
            &&& trace.last().finished()
            &&& trace.last().solution == z1
            &&& ROUNDS < trace.len() <= ROUNDS * ROUNDS + 1
        };
    let trace2 = choose|trace: Seq<Search>|
        #![trigger search_run(f, c, trace)]
        {
            &&& search_run(f, c, trace)
            &&& trace.last().finished()
            &&& trace.last().solution == z2
            &&& ROUNDS < trace.len() <= ROUNDS * ROUNDS + 1
        };
    let n1 = trace1.len() as int;
    let n2 = trace2.len() as int;
    if n1 <= n2 {
        runs_agree(f, c, trace1, trace2, n1 - 1);
        if n1 < n2 {
            assert(!trace2[n1 - 1].finished());
        }
    } else {
        runs_agree(f, c, trace1, trace2, n2 - 1);
        assert(!trace1[n2 - 1].finished());
    }
}

/// A probe keeps the steps on their schedule: from a well-formed state that
/// is not finished, the next state is well-formed, whatever was read.
pub proof fn next_is_well_formed(s: Search, solution: Complex, at_zero: bool)
    requires
        s.wf(),
        !s.finished(),
    ensures
        s.next(solution, at_zero).wf(),
        s.next(solution, at_zero).most_spent() > s.most_spent(),
{
    Search::steps_are_halvable(s);
}

/// Every state of a run is well-formed: after `outer` rounds and `inner`
/// probes the real step is `1e20` halved `outer` times and the imaginary
/// step is that halved `inner` times more, both exactly.
pub proof fn states_of_a_run_are_well_formed<F: Fn(Op, u64, u64) -> u64>(
    f: &F,
    c: Seq<Complex>,
    trace: Seq<Search>,
    i: int,
)
    requires
        search_run(f, c, trace),
        0 <= i < trace.len(),
    ensures
        trace[i].wf(),
        halvable(trace[i].step_re),
        halvable(trace[i].step_im),
    decreases i,
{
    if i > 0 {
        states_of_a_run_are_well_formed(f, c, trace, i - 1);
        let s = trace[i - 1];
        assert(Search::probe_of(f, c, s, trace[i - 1 + 1]));
        assert(!s.finished());
        let (here, around) = choose|here: Reading, around: Seq<Reading>|
            #![trigger s.after(here, around)]
            {
                &&& around.len() == 4
                &&& reading_of(f, c, s.solution, here)
                &&& forall|k: int|
                    0 <= k < 4 ==> Complex::sum_of(f, s.solution, s.offset_of(k), (#[trigger] around[k]).point)
                        && reading_of(f, c, around[k].point, around[k])
                &&& trace[i] == s.after(here, around)
            };
        match choice(here, around) {
            Some(k) => next_is_well_formed(s, around[k].point, around[k].value.vanishes()),
            None => next_is_well_formed(s, s.solution, here.value.vanishes()),
        }
    }
    Search::steps_are_halvable(trace[i]);
}

/// A probe moves to a candidate only where that candidate is strictly closer
/// and no candidate before it is; where it moves to none, none is closer.
pub proof fn choice_is_the_first_closer(here: Reading, around: Seq<Reading>)
    requires
        around.len() == 4,
    ensures
        match choice(here, around) {
            Some(k) => 0 <= k < 4 && below(around[k].norm, here.norm) && forall|j: int|
                0 <= j < k ==> !below(#[trigger] around[j].norm, here.norm),
            None => forall|j: int| 0 <= j < 4 ==> !below(#[trigger] around[j].norm, here.norm),
        },
{
}

impl Polynomial {
    /// Evaluates the polynomial at `z` and takes the squared magnitude of
    /// the value.
    pub fn read_at<F: Fn(Op, u64, u64) -> u64>(&self, z: Complex, f: &F) -> (r: Reading)
        requires
            total(f),
        ensures
            reading_of(f, self@, z, r),
    {
        let value = self.value_at(z, f);
        let norm = value.norm_sqr(f);
        Reading { point: z, value, norm }
    }

    /// Searches for a point where the polynomial's magnitude is small, from
    /// `0` and with steps that start at `1e20`. The search is a fixed amount
    /// of work; what it returns need not be near a root.
    pub fn search_min<F: Fn(Op, u64, u64) -> u64>(&self, f: &F) -> (z: Complex)
        requires
            total(f),
        ensures
            located(f, self@, z),
    {
        let mut s = Search::new();
        let ghost mut trace: Seq<Search> = seq![s];
        while !s.is_done()
            invariant
                total(f),
                s.wf(),
                search_run(f, self@, trace),
                trace.last() == s,
                s.least_spent() < trace.len() <= s.most_spent() + 1,
            decreases (ROUNDS - s.outer) * ROUNDS - s.inner,
        {
            let here = self.read_at(s.solution, f);
            let first = self.read_at(s.solution.add(s.offset(0), f), f);
            let second = self.read_at(s.solution.add(s.offset(1), f), f);
            let third = self.read_at(s.solution.add(s.offset(2), f), f);
            let fourth = self.read_at(s.solution.add(s.offset(3), f), f);
            let around = [first, second, third, fourth];
            let ghost before = s;
            let ghost earlier = trace;
            s.advance(&here, &around);
            proof {
                trace = trace.push(s);
                assert(trace[0] == earlier[0]);
                assert(around@.len() == 4);
                assert(s == before.after(here, around@));
                assert(Search::probe_of(f, self@, before, s));
                assert forall|i: int| 0 <= i < trace.len() - 1 implies !(#[trigger] trace[i]).finished() by {
                    if i < earlier.len() - 1 {
                        assert(trace[i] == earlier[i]);
                    } else {
                        assert(trace[i] == before);
                    }
                }
                assert forall|i: int| 0 <= i < trace.len() - 1 implies #[trigger] Search::probe_of(
                    f,
                    self@,
                    trace[i],
                    trace[i + 1],
                ) by {
                    if i < earlier.len() - 1 {
                        assert(Search::probe_of(f, self@, earlier[i], earlier[i + 1]));
                        assert(trace[i] == earlier[i] && trace[i + 1] == earlier[i + 1]);
                    } else {
                        assert(trace[i] == before && trace[i + 1] == s);
                    }
                }
            }
        }
        s.solution
    }
}

} // verus!
