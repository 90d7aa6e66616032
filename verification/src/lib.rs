//! Composable units for privacy-preserving data processing.
//!
//! A unit is either a deterministic transformation that carries a bound on how
//! far apart its outputs can be, or a randomized measurement that carries a
//! bound on the privacy loss of its release. Every bound is computed in
//! fixed-point arithmetic that rounds toward the safe side and reports overflow
//! instead of wrapping.
//!
//! - [`fixed`] and [`transcendental`] hold the arithmetic.
//! - [`domains`], [`metrics`] and [`measures`] describe the two ends of a unit.
//! - [`units`] holds the units themselves and the laws of their maps.
//! - [`combinators`] chains units and amplifies measurements.
//! - [`measurements`] and [`transformations`] hold the constructors.
//! - [`bindings`] resolves the names by which constructors are picked from
//!   other languages.
//!
//! - [`samplers`] makes discrete Laplace noise out of uniformly drawn
//!   integers.
//!
//! Nothing in the library reads a source of randomness. A measurement is a
//! function of its input and of the noise, and the noise is a function of
//! uniformly drawn integers that the caller reads.

pub mod bindings;
pub mod combinators;
pub mod domains;
pub mod error;
pub mod fixed;
pub mod measurements;
pub mod measures;
pub mod metrics;
pub mod samplers;
pub mod traits;
pub mod transformations;
pub mod transcendental;
pub mod units;
