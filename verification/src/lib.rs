//! An interpreter and inference engine for a small first-order probabilistic
//! programming language in the Lisp family.
//!
//! A program is a set of function definitions and an expression. Running it
//! evaluates the expression many times; each `sample` and each `observe` of
//! a run goes to an inference driver, which decides what the run sees and
//! what is recorded of it, and in the end gives a dataset.
//!
//! - [`ast`] holds the syntax of programs, and [`addresses`] the pass that
//!   gives every `sample` and `observe` a number of its own.
//! - [`types`] holds the runtime values, [`distributions`] the distributions
//!   and [`functions`] the builtin operators.
//! - [`interpreter`] is the evaluator, and [`semantics`] says what it
//!   computes: which questions an evaluation asks of the driver and of the
//!   numerics, and what comes out for each way of answering them.
//! - [`inference`] holds the interface to a driver and the three drivers:
//!   sampling from the prior, likelihood weighting, and single-site
//!   Metropolis-Hastings.
//! - [`dataset`] is what a driver hands out in the end, and [`laws`] states
//!   what holds of the operators and the evaluator on every input.
//!
//! The library never computes on a floating-point number and never makes a
//! random draw from a distribution. A floating-point number is carried as
//! its bit pattern ([`types::Float`]); arithmetic on it, densities and draws
//! are asked of the [`distributions::Numerics`] that the caller supplies.
//! The contracts say of every such result which operation gave it on which
//! operands.
pub mod types;
pub mod distributions;
pub mod ast;
pub mod functions;
pub mod addresses;
pub mod dataset;
pub mod inference;
pub mod semantics;
pub mod interpreter;
pub mod laws;
