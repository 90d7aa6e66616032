//! The failures that a unit can report.

use vstd::prelude::*;
use crate::fixed::Fixed;

verus! {

/// Why an operation of this library did not produce a value.
#[derive(Clone, Copy, Debug, PartialEq, Eq, Structural)]
pub enum Error {
    /// A constructor was given a parameter outside its domain: a negative
    /// scale, inverted bounds, a size of zero, edges that do not increase.
    InvalidParameter,
    /// Two units were chained whose descriptors at the joint differ.
    DomainMismatch,
    /// A distance handed to a map was negative.
    InvalidDistance,
    /// A bound could not be computed without leaving the representable range,
    /// or a cast could not be made exactly.
    ArithmeticFailure,
    /// A function was invoked on data of the wrong shape.
    FailedFunction,
    /// A relation was asked about at a tolerance that is not positive.
    FailedRelation,
    /// The unit is usable, but the relation asked about cannot be certified:
    /// the threshold would have to be at least `min_threshold`.
    RelationDebug { min_threshold: Fixed },
}

/// The result of an operation that may fail.
pub type Fallible<T> = Result<T, Error>;

} // verus!
