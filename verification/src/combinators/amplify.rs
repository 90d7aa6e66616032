//! Amplification by subsampling: a measurement that is run on a simple random
//! sample of a larger population loses less privacy than its own map says.

use vstd::prelude::*;
use crate::domains::{Domain, SizedDomain, VectorDomain};
use crate::error::{Error, Fallible};
use crate::fixed::{ceil_div, lemma_div_monotone, unit, Fixed};
use crate::measures::{FixedSmoothedMaxDivergence, Loss, MaxDivergence, Measure};
use crate::metrics::Metric;
use crate::traits::Distance;
use crate::transcendental::{
    exp_m1_upper,
    lemma_exp_m1_upper_monotone,
    lemma_ln_1p_upper_exists,
    lemma_ln_1p_upper_monotone,
    ln_1p_upper,
};
use crate::units::{BoundMap, Measurement, Mechanism};

verus! {

/// A domain whose members all hold the same, known number of records.
pub trait IsSizedDomain: Domain {
    /// The number of records in each member.
    spec fn spec_size(&self) -> usize;

    fn get_size(&self) -> (r: Fallible<usize>)
        ensures
            r == Ok::<usize, Error>(self.spec_size()),
    ;
}

impl<A: Domain> IsSizedDomain for SizedDomain<VectorDomain<A>> {
    open spec fn spec_size(&self) -> usize {
        self.size
    }

    fn get_size(&self) -> (r: Fallible<usize>) {
        Ok(self.size)
    }
}

/// The share of the population that the sample holds, rounded up.
pub open spec fn spec_sampling_rate(population_size: usize, sample_size: usize) -> Fallible<
    Fixed,
> {
    match Fixed::spec_exact_int_cast(sample_size as int) {
        Err(e) => Err(e),
        Ok(sample) => match Fixed::spec_exact_int_cast(population_size as int) {
            Err(e) => Err(e),
            Ok(population) => sample.spec_inf_div(&population),
        },
    }
}

pub fn sampling_rate(population_size: usize, sample_size: usize) -> (r: Fallible<Fixed>)
    ensures
        r == spec_sampling_rate(population_size, sample_size),
        r is Ok ==> r->Ok_0@ >= 0,
{
    let sample = Fixed::exact_size_cast(sample_size)?;
    let population = Fixed::exact_size_cast(population_size)?;
    proof {
        lemma_sampling_rate_sign(population_size, sample_size);
    }
    sample.inf_div(&population)
}

/// A sampling rate is never negative.
pub proof fn lemma_sampling_rate_sign(population_size: usize, sample_size: usize)
    ensures
        spec_sampling_rate(population_size, sample_size) is Ok ==> spec_sampling_rate(
            population_size,
            sample_size,
        )->Ok_0@ >= 0,
{
    let s = sample_size * unit();
    let p = population_size * unit();
    assert(s >= 0 && p >= 0 && s * unit() >= 0) by (nonlinear_arith)
        requires
            s == sample_size * unit(),
            p == population_size * unit(),
            unit() > 0,
    ;
    if p > 0 {
        lemma_div_monotone(0, s * unit(), p);
        assert(ceil_div(0, p) == 0);
    }
}

/// `epsilon`, amplified as `ln(1 + (exp(epsilon) - 1) * rate)`, every step
/// rounded up. A loss without a bound has no amplified bound either.
pub open spec fn spec_amplify_epsilon(epsilon: Loss, rate: Fixed) -> Fallible<Loss> {
    match epsilon {
        Loss::Infinite => Err(Error::ArithmeticFailure),
        Loss::Finite(e) => match e.spec_inf_exp_m1() {
            Err(err) => Err(err),
            Ok(grown) => match grown.spec_inf_mul(&rate) {
                Err(err) => Err(err),
                Ok(scaled) => match scaled.spec_inf_ln_1p() {
                    Err(err) => Err(err),
                    Ok(amplified) => Ok(Loss::Finite(amplified)),
                },
            },
        },
    }
}

pub fn amplify_epsilon(epsilon: &Loss, rate: &Fixed) -> (r: Fallible<Loss>)
    ensures
        r == spec_amplify_epsilon(*epsilon, *rate),
{
    match epsilon {
        Loss::Infinite => Err(Error::ArithmeticFailure),
        Loss::Finite(e) => {
            let amplified = e.inf_exp_m1()?.inf_mul(rate)?.inf_ln_1p()?;
            Ok(Loss::Finite(amplified))
        },
    }
}

/// The amplified loss grows with the loss, is defined wherever it is defined
/// for a larger loss, and is never negative.
pub proof fn lemma_amplify_epsilon_monotone(e1: Loss, e2: Loss, rate: Fixed)
    requires
        rate@ >= 0,
        e1.spec_valid(),
        e1.spec_le(&e2),
        spec_amplify_epsilon(e2, rate) is Ok,
    ensures
        spec_amplify_epsilon(e1, rate) is Ok,
        spec_amplify_epsilon(e1, rate)->Ok_0.spec_valid(),
        spec_amplify_epsilon(e1, rate)->Ok_0.spec_le(&spec_amplify_epsilon(e2, rate)->Ok_0),
{
    let a1 = e1->Finite_0@;
    let a2 = e2->Finite_0@;
    lemma_exp_m1_upper_monotone(a1, a2);
    let g1 = exp_m1_upper(a1);
    let g2 = exp_m1_upper(a2);
    assert(0 <= g1 * rate@ <= g2 * rate@) by (nonlinear_arith)
        requires
            0 <= g1 <= g2,
            rate@ >= 0,
    ;
    lemma_div_monotone(0, g1 * rate@, unit());
    lemma_div_monotone(g1 * rate@, g2 * rate@, unit());
    assert(ceil_div(0, unit()) == 0);
    let s1 = ceil_div(g1 * rate@, unit());
    let s2 = ceil_div(g2 * rate@, unit());
    lemma_ln_1p_upper_exists(s1);
    lemma_ln_1p_upper_exists(s2);
    lemma_ln_1p_upper_monotone(s1, s2, ln_1p_upper(s1), ln_1p_upper(s2));
}

/// A measure for which it is known how a loss shrinks under subsampling.
pub trait AmplifiableMeasure: Measure {
    /// The loss `budget` of a measurement on a sample of `sample_size`
    /// records, restated for the population of `population_size` records that
    /// the sample was drawn from.
    spec fn spec_amplify(
        &self,
        budget: Self::Distance,
        population_size: usize,
        sample_size: usize,
    ) -> Fallible<Self::Distance>;

    fn amplify(&self, budget: &Self::Distance, population_size: usize, sample_size: usize) -> (r:
        Fallible<Self::Distance>)
        ensures
            r == self.spec_amplify(*budget, population_size, sample_size),
    ;

    /// The amplified loss grows with the loss, is defined wherever it is
    /// defined for a larger loss, and is a legal loss.
    proof fn lemma_amplify_monotone(
        &self,
        b1: Self::Distance,
        b2: Self::Distance,
        population_size: usize,
        sample_size: usize,
    )
        requires
            b1.spec_valid(),
            b1.spec_le(&b2),
            self.spec_amplify(b2, population_size, sample_size) is Ok,
        ensures
            self.spec_amplify(b1, population_size, sample_size) is Ok,
            self.spec_amplify(b1, population_size, sample_size)->Ok_0.spec_valid(),
            self.spec_amplify(b1, population_size, sample_size)->Ok_0.spec_le(
                &self.spec_amplify(b2, population_size, sample_size)->Ok_0,
            ),
    ;
}

impl AmplifiableMeasure for MaxDivergence {
    open spec fn spec_amplify(&self, budget: Loss, population_size: usize, sample_size: usize) -> Fallible<
        Loss,
    > {
        match spec_sampling_rate(population_size, sample_size) {
            Err(e) => Err(e),
            Ok(rate) => spec_amplify_epsilon(budget, rate),
        }
    }

    fn amplify(&self, epsilon: &Loss, population_size: usize, sample_size: usize) -> (r: Fallible<
        Loss,
    >) {
        let rate = sampling_rate(population_size, sample_size)?;
        amplify_epsilon(epsilon, &rate)
    }

    proof fn lemma_amplify_monotone(
        &self,
        b1: Loss,
        b2: Loss,
        population_size: usize,
        sample_size: usize,
    ) {
        lemma_sampling_rate_sign(population_size, sample_size);
        lemma_amplify_epsilon_monotone(
            b1,
            b2,
            spec_sampling_rate(population_size, sample_size)->Ok_0,
        );
    }
}

impl AmplifiableMeasure for FixedSmoothedMaxDivergence {
    /// `epsilon` is amplified as under pure differential privacy, and `delta`
    /// is multiplied by the sampling rate.
    open spec fn spec_amplify(
        &self,
        budget: (Loss, Fixed),
        population_size: usize,
        sample_size: usize,
    ) -> Fallible<(Loss, Fixed)> {
        match spec_sampling_rate(population_size, sample_size) {
            Err(e) => Err(e),
            Ok(rate) => match spec_amplify_epsilon(budget.0, rate) {
                Err(e) => Err(e),
                Ok(epsilon) => match budget.1.spec_inf_mul(&rate) {
                    Err(e) => Err(e),
                    Ok(delta) => Ok((epsilon, delta)),
                },
            },
        }
    }

    fn amplify(&self, budget: &(Loss, Fixed), population_size: usize, sample_size: usize) -> (r:
        Fallible<(Loss, Fixed)>) {
        let rate = sampling_rate(population_size, sample_size)?;
        let epsilon = amplify_epsilon(&budget.0, &rate)?;
        let delta = budget.1.inf_mul(&rate)?;
        Ok((epsilon, delta))
    }

    proof fn lemma_amplify_monotone(
        &self,
        b1: (Loss, Fixed),
        b2: (Loss, Fixed),
        population_size: usize,
        sample_size: usize,
    ) {
        lemma_sampling_rate_sign(population_size, sample_size);
        let rate = spec_sampling_rate(population_size, sample_size)->Ok_0;
        assert(b1.0.spec_valid() && b1.1.spec_valid());
        assert(b1.0.spec_le(&b2.0) && b1.1.spec_le(&b2.1));
        lemma_amplify_epsilon_monotone(b1.0, b2.0, rate);
        let d1 = b1.1@;
        let d2 = b2.1@;
        assert(0 <= d1 * rate@ <= d2 * rate@) by (nonlinear_arith)
            requires
                0 <= d1 <= d2,
                rate@ >= 0,
        ;
        lemma_div_monotone(0, d1 * rate@, unit());
        lemma_div_monotone(d1 * rate@, d2 * rate@, unit());
        assert(ceil_div(0, unit()) == 0);
    }
}

/// The privacy map of an amplified measurement: the loss that `inner` gives,
/// restated by `measure` for the population.
pub struct AmplifiedMap<MO, M> {
    pub measure: MO,
    pub inner: M,
    pub population_size: usize,
    pub sample_size: usize,
}

impl<MO: AmplifiableMeasure, M: BoundMap<Out = MO::Distance>> BoundMap for AmplifiedMap<MO, M> {
    type In = M::In;

    type Out = MO::Distance;

    open spec fn wf(&self) -> bool {
        self.inner.wf()
    }

    open spec fn spec_eval(&self, d_in: M::In) -> Fallible<MO::Distance> {
        match self.inner.spec_eval(d_in) {
            Ok(budget) => self.measure.spec_amplify(budget, self.population_size, self.sample_size),
            Err(e) => Err(e),
        }
    }

    fn eval(&self, d_in: &M::In) -> (r: Fallible<MO::Distance>) {
        match self.inner.eval(d_in) {
            Ok(budget) => self.measure.amplify(&budget, self.population_size, self.sample_size),
            Err(e) => Err(e),
        }
    }

    proof fn lemma_rejects_invalid(&self, d_in: M::In) {
        self.inner.lemma_rejects_invalid(d_in);
    }

    proof fn lemma_monotone(&self, d1: M::In, d2: M::In) {
        self.inner.lemma_monotone(d1, d2);
        self.measure.lemma_amplify_monotone(
            self.inner.spec_eval(d1)->Ok_0,
            self.inner.spec_eval(d2)->Ok_0,
            self.population_size,
            self.sample_size,
        );
    }
}

/// The measurement `measurement`, run on a simple random sample of a
/// population of `population_size` records: the same function, and the
/// privacy map amplified.
///
/// Fails with `InvalidParameter` if the population is smaller than the sample
/// that the measurement takes.
pub fn make_population_amplification<DIA, DO, F, MI, MO, M>(
    measurement: Measurement<DIA, DO, F, MI, MO, M>,
    population_size: usize,
) -> (r: Fallible<Measurement<DIA, DO, F, MI, MO, AmplifiedMap<MO, M>>>) where
    DIA: IsSizedDomain,
    DO: Domain,
    F: Mechanism<In = DIA::Carrier, Out = DO::Carrier>,
    MI: Metric,
    MO: AmplifiableMeasure + Copy,
    M: BoundMap<In = MI::Distance, Out = MO::Distance>,

    requires
        measurement.wf(),
    ensures
        r is Err <==> population_size < measurement.input_domain.spec_size(),
        r is Err ==> r->Err_0 == Error::InvalidParameter,
        r is Ok ==> {
            let m = r->Ok_0;
            &&& m.wf()
            &&& m.input_domain == measurement.input_domain
            &&& m.output_domain == measurement.output_domain
            &&& m.function == measurement.function
            &&& m.input_metric == measurement.input_metric
            &&& m.output_measure == measurement.output_measure
            &&& m.privacy_map == (AmplifiedMap {
                measure: measurement.output_measure,
                inner: measurement.privacy_map,
                population_size,
                sample_size: measurement.input_domain.spec_size(),
            })
        },
{
    let sample_size = measurement.input_domain.get_size()?;
    if population_size < sample_size {
        return Err(Error::InvalidParameter);
    }
    let output_measure = measurement.output_measure;
    let privacy_map = AmplifiedMap {
        measure: output_measure,
        inner: measurement.privacy_map,
        population_size,
        sample_size,
    };
    Ok(
        Measurement::new(
            measurement.input_domain,
            measurement.output_domain,
            measurement.function,
            measurement.input_metric,
            output_measure,
            privacy_map,
        ),
    )
}

} // verus!
