//! Exact-arithmetic building blocks for escape-time fractal sampling.
//!
//! The crate is organised around three pure operations: a pair parser that
//! splits a delimited string into two typed values, a coordinate mapper that
//! sends an image pixel to the point of the complex plane it stands for, and
//! an escape-time evaluator for the quadratic map `z <- z * z + c`.  Numbers
//! are kept as exact fractions so that every result is pinned down by a
//! contract.  A handful of small verified utilities (greatest common divisor,
//! slice summaries and the like) round out the crate.

pub mod complex;
pub mod escape;
pub mod gcd;
pub mod parse;
pub mod pixel;
pub mod rational;
pub mod util;
