//! Adaptive numerical quadrature over exact rational arithmetic.
//!
//! The core of the crate is an adaptive Simpson integrator: given an
//! integrand, an interval and an error tolerance, it refines the interval
//! recursively until an embedded Richardson error estimate meets the
//! tolerance budget, with a hard depth ceiling as a safety valve against
//! integrands that never converge. All arithmetic is exact: values are
//! rationals with a 64-bit numerator and denominator, reduced after every
//! operation, and an operation whose reduced result leaves that range
//! reports it instead of returning a rounded value.

pub mod frac;
pub mod rat;
pub mod integrand;
pub mod engine;
pub mod rules;
pub mod laws;
pub mod exactness;
