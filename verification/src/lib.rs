//! Shrinking of a non-negative integer against a criterion.
//!
//! [`minimize_integer`] searches downward from a starting value for a smaller
//! value on which a caller-supplied criterion still holds. The search is a
//! fixed sequence of passes: small values one by one, repeated halving, one
//! sweep of bit flips, a decrement, and a binary search. It asks the
//! criterion a number of times that grows with the logarithm of the starting
//! value. It is a heuristic, and does not promise the least value on which
//! the criterion holds.
//!
//! - [`model`]: what a run returns, as a function of the criterion's answers.
//! - [`trace`]: the values that a run asks the criterion about, in order.
//! - [`criterion`]: what a contract says of the criterion itself.
//! - [`minimizer`]: the candidate tester, which holds the best value.
//! - [`intminimize`]: the run.
//! - [`laws`], [`trace_laws`]: what holds of every run.

pub mod model;
pub mod trace;
pub mod criterion;
pub mod minimizer;
pub mod intminimize;
pub mod laws;
pub mod trace_laws;

pub use crate::intminimize::minimize_integer;
pub use crate::minimizer::Minimizer;
