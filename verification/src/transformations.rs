//! Transformations: the deterministic steps of a pipeline.

use vstd::prelude::*;
use crate::domains::Domain;
use crate::error::{Error, Fallible};
use crate::fixed::{lemma_inf_mul_monotone, unit, Fixed};
use crate::metrics::{AgnosticMetric, Metric};
use crate::traits::{Distance, TotalDistance};
use crate::units::{BoundMap, Function, Transformation};

pub mod count_by;
pub mod count_cdf;
pub mod dataframe;
pub mod mean;
pub mod resize;
pub mod sum_of_squared_deviations;

verus! {

/// The stability map of a postprocessor: there is nothing to bound.
#[derive(Clone, Copy, Debug, PartialEq, Eq, Structural)]
pub struct AgnosticMap {}

impl BoundMap for AgnosticMap {
    type In = ();

    type Out = ();

    open spec fn wf(&self) -> bool {
        true
    }

    open spec fn spec_eval(&self, d_in: ()) -> Fallible<()> {
        Ok(())
    }

    fn eval(&self, d_in: &()) -> (r: Fallible<()>) {
        Ok(())
    }

    proof fn lemma_rejects_invalid(&self, d_in: ()) {
    }

    proof fn lemma_monotone(&self, d1: (), d2: ()) {
    }
}

/// The stability map of a transformation under which the distance between
/// two outputs is at most `constant` times that between the inputs.
#[derive(Clone, Copy, Debug, PartialEq, Eq, Structural)]
pub struct ConstantMap {
    pub constant: u32,
}

impl BoundMap for ConstantMap {
    type In = u32;

    type Out = u32;

    open spec fn wf(&self) -> bool {
        true
    }

    open spec fn spec_eval(&self, d_in: u32) -> Fallible<u32> {
        if d_in * self.constant <= u32::MAX {
            Ok((d_in * self.constant) as u32)
        } else {
            Err(Error::ArithmeticFailure)
        }
    }

    fn eval(&self, d_in: &u32) -> (r: Fallible<u32>) {
        match d_in.checked_mul(self.constant) {
            Some(d_out) => Ok(d_out),
            None => Err(Error::ArithmeticFailure),
        }
    }

    proof fn lemma_rejects_invalid(&self, d_in: u32) {
    }

    proof fn lemma_monotone(&self, d1: u32, d2: u32) {
        assert(d1 * self.constant <= d2 * self.constant) by (nonlinear_arith)
            requires
                d1 <= d2,
                self.constant >= 0,
        ;
    }
}

/// The stability map of an aggregate of datasets of a known size. Two such
/// datasets that are `d_in` additions and removals apart differ in `d_in / 2`
/// records. Each record that differs moves the aggregate by at most
/// `sensitivity`, and rounding moves it by at most `relaxation` more.
#[derive(Clone, Copy, Debug, PartialEq, Eq, Structural)]
pub struct SubstitutionMap {
    pub sensitivity: Fixed,
    pub relaxation: Fixed,
}

impl BoundMap for SubstitutionMap {
    type In = u32;

    type Out = Fixed;

    open spec fn wf(&self) -> bool {
        self.sensitivity@ >= 0 && self.relaxation@ >= 0
    }

    /// `d_in / 2 * sensitivity + relaxation`, rounded up.
    open spec fn spec_eval(&self, d_in: u32) -> Fallible<Fixed> {
        match Fixed::spec_exact_int_cast(d_in as int / 2) {
            Err(e) => Err(e),
            Ok(substitutions) => match substitutions.spec_inf_mul(&self.sensitivity) {
                Err(e) => Err(e),
                Ok(moved) => moved.spec_add(&self.relaxation),
            },
        }
    }

    fn eval(&self, d_in: &u32) -> (r: Fallible<Fixed>) {
        let halved: u32 = *d_in / 2;
        Fixed::exact_int_cast(halved as i64)?.inf_mul(&self.sensitivity)?.inf_add(&self.relaxation)
    }

    proof fn lemma_rejects_invalid(&self, d_in: u32) {
    }

    proof fn lemma_monotone(&self, d1: u32, d2: u32) {
        let h1 = d1 as int / 2;
        let h2 = d2 as int / 2;
        assert(0 <= h1 * unit() <= h2 * unit() < 0x8000_0000 * unit()) by (nonlinear_arith)
            requires
                0 <= h1 <= h2 < 0x8000_0000,
                unit() > 0,
        ;
        let s1 = Fixed::spec_exact_int_cast(h1)->Ok_0;
        let s2 = Fixed::spec_exact_int_cast(h2)->Ok_0;
        lemma_inf_mul_monotone(s1, s2, self.sensitivity);
    }
}

/// The transformation that applies `function` to data that was released
/// before. Whatever is computed from a release costs no privacy beyond that
/// of the release.
pub fn make_postprocess<DI, DO, F>(input_domain: DI, output_domain: DO, function: F) -> (r:
    Fallible<Transformation<DI, DO, F, AgnosticMetric, AgnosticMetric, AgnosticMap>>) where
    DI: Domain,
    DO: Domain,
    F: Function<In = DI::Carrier, Out = DO::Carrier>,

    requires
        function.wf(),
        Transformation::<DI, DO, F, AgnosticMetric, AgnosticMetric, AgnosticMap>::maps_into(
            input_domain,
            output_domain,
            function,
        ),
    ensures
        r is Ok,
        r->Ok_0.wf(),
        r->Ok_0.input_domain == input_domain,
        r->Ok_0.output_domain == output_domain,
        r->Ok_0.function == function,
{
    Ok(
        Transformation::new(
            input_domain,
            output_domain,
            function,
            AgnosticMetric::default(),
            AgnosticMetric::default(),
            AgnosticMap {  },
        ),
    )
}

/// The function that returns its argument.
pub struct Identity<T> {
    pub marker: std::marker::PhantomData<T>,
}

impl<T: Copy> Function for Identity<T> {
    type In = T;

    type Out = T;

    open spec fn wf(&self) -> bool {
        true
    }

    open spec fn spec_eval(&self, arg: &T, out: &Fallible<T>) -> bool {
        *out == Ok::<T, Error>(*arg)
    }

    fn eval(&self, arg: &T) -> (r: Fallible<T>) {
        Ok(*arg)
    }
}

/// The stability map of the identity: outputs are as far apart as inputs.
pub struct IdentityMap<Q> {
    pub marker: std::marker::PhantomData<Q>,
}

impl<Q: TotalDistance + Copy> BoundMap for IdentityMap<Q> {
    type In = Q;

    type Out = Q;

    open spec fn wf(&self) -> bool {
        true
    }

    open spec fn spec_eval(&self, d_in: Q) -> Fallible<Q> {
        if d_in.spec_valid() {
            Ok(d_in)
        } else {
            Err(Error::InvalidDistance)
        }
    }

    fn eval(&self, d_in: &Q) -> (r: Fallible<Q>) {
        if d_in.is_valid() {
            Ok(*d_in)
        } else {
            Err(Error::InvalidDistance)
        }
    }

    proof fn lemma_rejects_invalid(&self, d_in: Q) {
    }

    proof fn lemma_monotone(&self, d1: Q, d2: Q) {
    }
}

/// The transformation that changes nothing, on the given domain and under
/// the given metric.
pub fn make_identity<D, M>(domain: D, metric: M) -> (r: Fallible<
    Transformation<D, D, Identity<D::Carrier>, M, M, IdentityMap<M::Distance>>,
>) where
    D: Domain + Copy,
    D::Carrier: Copy,
    M: Metric + Copy,
    M::Distance: TotalDistance + Copy,

    ensures
        r is Ok,
        r->Ok_0.wf(),
        r->Ok_0.input_domain == domain,
        r->Ok_0.output_domain == domain,
        r->Ok_0.input_metric == metric,
        r->Ok_0.output_metric == metric,
{
    Ok(
        Transformation::new(
            domain,
            domain,
            Identity { marker: std::marker::PhantomData },
            metric,
            metric,
            IdentityMap { marker: std::marker::PhantomData },
        ),
    )
}

} // verus!
