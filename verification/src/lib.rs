//! Approximate root extraction for polynomials with complex coefficients.
//!
//! Numbers are carried as IEEE-754 binary64 bit patterns. Everything that is
//! exact on a bit pattern (sign, zero test, ordering, halving of a normal
//! number) is computed and proved here. Rounding arithmetic, and the
//! conversion between a value and its decimal text, are delegated to
//! functions that the caller supplies; the contracts say what was asked of
//! them, on which operands and in which order, and how the answers are used.
//!
//! - `ieee`: what can be read off a bit pattern.
//! - `unit`: the arithmetic unit that the caller supplies.
//! - `complex`: complex values and their operations.
//! - `polynomial`: coefficient sequences: padding, trimming, degree,
//!   evaluation, deflation.
//! - `locator`: the compass search for one root.
//! - `extraction`: the driver that extracts all roots.
//! - `render`: values, polynomials and root sets as text.
//! - `literal`: reading a complex literal.
//! - `assembly`: assembling a polynomial from a sequence of arguments.

pub mod ieee;
pub mod unit;
pub mod complex;
pub mod polynomial;
pub mod locator;
pub mod extraction;
pub mod render;
pub mod literal;
pub mod assembly;
