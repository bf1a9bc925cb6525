//! The arithmetic unit: the rounding operations that this library requests
//! from its caller instead of computing them.
//!
//! A unit is any function from an operation and two binary64 patterns to a
//! pattern. Nothing is assumed of what it answers. Contracts speak of a unit
//! through `yields`, which holds of exactly the answers that the unit can
//! give to a request.

use vstd::prelude::*;

verus! {

/// A binary operation on two binary64 values.
#[derive(Clone, Copy, PartialEq, Eq, Debug, Structural)]
pub enum Op {
    /// `a + b`
    Add,
    /// `a - b`
    Sub,
    /// `a * b`
    Mul,
    /// `a / b`
    Div,
}

/// The unit accepts every request.
pub open spec fn total<F: Fn(Op, u64, u64) -> u64>(f: &F) -> bool {
    forall|op: Op, a: u64, b: u64| call_requires(f, (op, a, b))
}

/// `r` is an answer of the unit to the request `op` on `a` and `b`.
#[verifier::inline]
pub open spec fn yields<F: Fn(Op, u64, u64) -> u64>(f: &F, op: Op, a: u64, b: u64, r: u64) -> bool {
    call_ensures(f, (op, a, b), r)
}

/// The unit is a function: it has one answer to each request. This holds of
/// correctly rounded binary64 arithmetic wherever the answer is no NaN, and
/// of every unit that answers a NaN by one fixed pattern.
pub open spec fn single_valued<F: Fn(Op, u64, u64) -> u64>(f: &F) -> bool {
    forall|op: Op, a: u64, b: u64, r1: u64, r2: u64|
        yields(f, op, a, b, r1) && yields(f, op, a, b, r2) ==> r1 == r2
}

/// The rounding function accepts every pattern.
pub open spec fn total_rounding<R: Fn(u64) -> u64>(round: &R) -> bool {
    forall|a: u64| call_requires(round, (a,))
}

/// `r` is an answer of the rounding function to `a`.
#[verifier::inline]
pub open spec fn rounds<R: Fn(u64) -> u64>(round: &R, a: u64, r: u64) -> bool {
    call_ensures(round, (a,), r)
}

/// The rounding function has one answer to each pattern.
pub open spec fn single_valued_rounding<R: Fn(u64) -> u64>(round: &R) -> bool {
    forall|a: u64, r1: u64, r2: u64| rounds(round, a, r1) && rounds(round, a, r2) ==> r1 == r2
}

} // verus!
