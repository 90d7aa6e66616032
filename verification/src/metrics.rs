//! Metrics: how the distance between two datasets is measured.

use vstd::prelude::*;
use crate::fixed::Fixed;
use crate::traits::Distance;

verus! {

/// The way in which two datasets are compared, and the type of the distances
/// that the comparison yields. A metric is known to the units only by this
/// type and by its identity.
pub trait Metric {
    type Distance: Distance;

    /// Whether the two descriptors name the same metric.
    spec fn spec_same(&self, other: &Self) -> bool;

    fn same(&self, other: &Self) -> (r: bool)
        ensures
            r == self.spec_same(other),
    ;
}

/// The number of records that must be added to or removed from one dataset to
/// obtain the other.
#[derive(Clone, Copy, Debug, PartialEq, Eq, Structural)]
pub struct SymmetricDistance {}

impl SymmetricDistance {
    pub fn default() -> (r: Self) {
        SymmetricDistance {  }
    }
}

impl Metric for SymmetricDistance {
    type Distance = u32;

    open spec fn spec_same(&self, other: &Self) -> bool {
        true
    }

    fn same(&self, other: &Self) -> (r: bool) {
        true
    }
}

/// The number of records that must be inserted into or deleted from one
/// dataset, at chosen places, to obtain the other.
#[derive(Clone, Copy, Debug, PartialEq, Eq, Structural)]
pub struct InsertDeleteDistance {}

impl InsertDeleteDistance {
    pub fn default() -> (r: Self) {
        InsertDeleteDistance {  }
    }
}

impl Metric for InsertDeleteDistance {
    type Distance = u32;

    open spec fn spec_same(&self, other: &Self) -> bool {
        true
    }

    fn same(&self, other: &Self) -> (r: bool) {
        true
    }
}

/// A metric that counts records, and that does or does not take the order of
/// the records into account.
pub trait IsMetricOrdered: Metric<Distance = u32> + Sized {
    /// Whether two datasets with the same records in another order are apart.
    spec fn spec_is_ordered() -> bool;

    fn is_ordered() -> (r: bool)
        ensures
            r == Self::spec_is_ordered(),
    ;

    fn default_metric() -> Self;
}

impl IsMetricOrdered for SymmetricDistance {
    open spec fn spec_is_ordered() -> bool {
        false
    }

    fn is_ordered() -> (r: bool) {
        false
    }

    fn default_metric() -> Self {
        SymmetricDistance {  }
    }
}

impl IsMetricOrdered for InsertDeleteDistance {
    open spec fn spec_is_ordered() -> bool {
        true
    }

    fn is_ordered() -> (r: bool) {
        true
    }

    fn default_metric() -> Self {
        InsertDeleteDistance {  }
    }
}

/// A metric that says nothing: the data was already released, and what is
/// done to it afterwards costs no more.
#[derive(Clone, Copy, Debug, PartialEq, Eq, Structural)]
pub struct AgnosticMetric {}

impl AgnosticMetric {
    pub fn default() -> (r: Self) {
        AgnosticMetric {  }
    }
}

impl Metric for AgnosticMetric {
    type Distance = ();

    open spec fn spec_same(&self, other: &Self) -> bool {
        true
    }

    fn same(&self, other: &Self) -> (r: bool) {
        true
    }
}

/// The absolute difference of two integers.
#[derive(Clone, Copy, Debug, PartialEq, Eq, Structural)]
pub struct IntAbsoluteDistance {}

impl IntAbsoluteDistance {
    pub fn default() -> (r: Self) {
        IntAbsoluteDistance {  }
    }
}

impl Metric for IntAbsoluteDistance {
    type Distance = i64;

    open spec fn spec_same(&self, other: &Self) -> bool {
        true
    }

    fn same(&self, other: &Self) -> (r: bool) {
        true
    }
}

/// The sum of the absolute differences of the elements of two integer
/// vectors.
#[derive(Clone, Copy, Debug, PartialEq, Eq, Structural)]
pub struct IntL1Distance {}

impl IntL1Distance {
    pub fn default() -> (r: Self) {
        IntL1Distance {  }
    }
}

impl Metric for IntL1Distance {
    type Distance = i64;

    open spec fn spec_same(&self, other: &Self) -> bool {
        true
    }

    fn same(&self, other: &Self) -> (r: bool) {
        true
    }
}

/// The absolute difference of two fixed-point numbers.
#[derive(Clone, Copy, Debug, PartialEq, Eq, Structural)]
pub struct AbsoluteDistance {}

impl AbsoluteDistance {
    pub fn default() -> (r: Self) {
        AbsoluteDistance {  }
    }
}

impl Metric for AbsoluteDistance {
    type Distance = Fixed;

    open spec fn spec_same(&self, other: &Self) -> bool {
        true
    }

    fn same(&self, other: &Self) -> (r: bool) {
        true
    }
}

/// The sum of the absolute differences of the values that two keyed
/// collections hold under each key.
#[derive(Clone, Copy, Debug, PartialEq, Eq, Structural)]
pub struct L1Distance {}

impl L1Distance {
    pub fn default() -> (r: Self) {
        L1Distance {  }
    }
}

impl Metric for L1Distance {
    type Distance = Fixed;

    open spec fn spec_same(&self, other: &Self) -> bool {
        true
    }

    fn same(&self, other: &Self) -> (r: bool) {
        true
    }
}

/// The Euclidean distance between two integer vectors, or the absolute
/// difference of two integers, as a fixed-point number.
#[derive(Clone, Copy, Debug, PartialEq, Eq, Structural)]
pub struct L2Distance {}

impl L2Distance {
    pub fn default() -> (r: Self) {
        L2Distance {  }
    }
}

impl Metric for L2Distance {
    type Distance = Fixed;

    open spec fn spec_same(&self, other: &Self) -> bool {
        true
    }

    fn same(&self, other: &Self) -> (r: bool) {
        true
    }
}

} // verus!
