//! The two composable units, and what they are built from: a function, a map
//! that carries a distance bound through it, and descriptors of both ends.

use vstd::prelude::*;
use crate::domains::Domain;
use crate::error::{Error, Fallible};
use crate::measures::Measure;
use crate::metrics::Metric;
use crate::traits::{Distance, TotalDistance};

verus! {

/// A deterministic computation on data.
pub trait Function {
    type In;

    type Out;

    /// What must hold of the function's parameters.
    spec fn wf(&self) -> bool;

    /// Whether `out` is what the function makes of `arg`.
    spec fn spec_eval(&self, arg: &Self::In, out: &Fallible<Self::Out>) -> bool;

    fn eval(&self, arg: &Self::In) -> (r: Fallible<Self::Out>)
        requires
            self.wf(),
        ensures
            self.spec_eval(arg, &r),
    ;
}

/// A randomized computation on data, with the random draw made explicit:
/// `noise` is drawn from the distribution that the mechanism names, and the
/// mechanism says what is released for each draw. Where the mechanism has a
/// sampler, the draw is a walk of that sampler over uniformly drawn integers.
pub trait Mechanism {
    type In;

    type Noise;

    type Out;

    /// What must hold of the mechanism's parameters.
    spec fn wf(&self) -> bool;

    /// Whether `out` is what the mechanism releases for `arg` under the draw
    /// `noise`.
    spec fn spec_release(
        &self,
        arg: &Self::In,
        noise: &Self::Noise,
        out: &Fallible<Self::Out>,
    ) -> bool;

    fn release(&self, arg: &Self::In, noise: &Self::Noise) -> (r: Fallible<Self::Out>)
        requires
            self.wf(),
        ensures
            self.spec_release(arg, noise, &r),
    ;
}

/// A map from a bound on the distance between two inputs to a bound on the
/// distance between the two outputs. Each map comes with the proof that it
/// rejects what is no distance and that it never decreases.
pub trait BoundMap {
    type In: Distance;

    type Out: Distance;

    /// What must hold of the map's parameters.
    spec fn wf(&self) -> bool;

    /// The bound for `d_in`, or why there is none.
    spec fn spec_eval(&self, d_in: Self::In) -> Fallible<Self::Out>;

    fn eval(&self, d_in: &Self::In) -> (r: Fallible<Self::Out>)
        requires
            self.wf(),
        ensures
            r == self.spec_eval(*d_in),
    ;

    /// What is no distance, because it is negative, is rejected as such.
    proof fn lemma_rejects_invalid(&self, d_in: Self::In)
        requires
            self.wf(),
        ensures
            !d_in.spec_valid() ==> self.spec_eval(d_in) == Err::<Self::Out, Error>(
                Error::InvalidDistance,
            ),
    ;

    /// The map is monotone: where it has a bound for `d2`, it has one for
    /// every distance `d1` below `d2`, and that bound is a distance no larger.
    proof fn lemma_monotone(&self, d1: Self::In, d2: Self::In)
        requires
            self.wf(),
            d1.spec_valid(),
            d1.spec_le(&d2),
            self.spec_eval(d2) is Ok,
        ensures
            self.spec_eval(d1) is Ok,
            self.spec_eval(d1)->Ok_0.spec_valid(),
            self.spec_eval(d1)->Ok_0.spec_le(&self.spec_eval(d2)->Ok_0),
    ;
}

/// A deterministic computation with a stability claim: inputs that are at
/// most `d_in` apart under `input_metric` give outputs that are at most
/// `stability_map(d_in)` apart under `output_metric`.
///
/// The claim is that of whoever puts the function and the map together. What
/// is proved of the unit is that the function stays within the domains, which
/// `wf` states, and that the map is monotone, which is a law of [`BoundMap`].
pub struct Transformation<DI, DO, F, MI, MO, M> {
    pub input_domain: DI,
    pub output_domain: DO,
    pub function: F,
    pub input_metric: MI,
    pub output_metric: MO,
    pub stability_map: M,
}

impl<DI, DO, F, MI, MO, M> Transformation<DI, DO, F, MI, MO, M> where
    DI: Domain,
    DO: Domain,
    F: Function<In = DI::Carrier, Out = DO::Carrier>,
    MI: Metric,
    MO: Metric,
    M: BoundMap<In = MI::Distance, Out = MO::Distance>,
 {
    /// Whether `function` takes every member of the input domain into the
    /// output domain.
    pub open spec fn maps_into(input_domain: DI, output_domain: DO, function: F) -> bool {
        forall|x: DI::Carrier, y: Fallible<DO::Carrier>|
            input_domain.spec_member(&x) && #[trigger] function.spec_eval(&x, &y) && y is Ok
                ==> output_domain.spec_member(&y->Ok_0)
    }

    /// The invariant of a unit: its parts are well formed, and its function
    /// takes the input domain into the output domain.
    pub open spec fn wf(&self) -> bool {
        &&& self.function.wf()
        &&& self.stability_map.wf()
        &&& Self::maps_into(self.input_domain, self.output_domain, self.function)
    }

    pub fn new(
        input_domain: DI,
        output_domain: DO,
        function: F,
        input_metric: MI,
        output_metric: MO,
        stability_map: M,
    ) -> (r: Self)
        requires
            function.wf(),
            stability_map.wf(),
            Self::maps_into(input_domain, output_domain, function),
        ensures
            r.wf(),
            r.input_domain == input_domain,
            r.output_domain == output_domain,
            r.function == function,
            r.input_metric == input_metric,
            r.output_metric == output_metric,
            r.stability_map == stability_map,
    {
        Transformation {
            input_domain,
            output_domain,
            function,
            input_metric,
            output_metric,
            stability_map,
        }
    }

    /// Applies the function to a member of the input domain.
    pub fn invoke(&self, arg: &DI::Carrier) -> (r: Fallible<DO::Carrier>)
        requires
            self.wf(),
            self.input_domain.spec_member(arg),
        ensures
            self.function.spec_eval(arg, &r),
            r is Ok ==> self.output_domain.spec_member(&r->Ok_0),
    {
        self.function.eval(arg)
    }

    /// The bound on the output distance for inputs at most `d_in` apart.
    pub fn map(&self, d_in: &MI::Distance) -> (r: Fallible<MO::Distance>)
        requires
            self.wf(),
        ensures
            r == self.stability_map.spec_eval(*d_in),
    {
        self.stability_map.eval(d_in)
    }

    /// What `check` returns: whether the bound for `d_in` is at most `d_out`,
    /// or why there is no bound.
    pub open spec fn spec_check(&self, d_in: MI::Distance, d_out: MO::Distance) -> Fallible<bool> {
        match self.stability_map.spec_eval(d_in) {
            Ok(bound) => Ok(bound.spec_le(&d_out)),
            Err(e) => Err(e),
        }
    }

    /// Whether inputs at most `d_in` apart are certified to give outputs at
    /// most `d_out` apart.
    pub fn check(&self, d_in: &MI::Distance, d_out: &MO::Distance) -> (r: Fallible<bool>) where
        MO::Distance: TotalDistance,

        requires
            self.wf(),
        ensures
            r == self.spec_check(*d_in, *d_out),
    {
        match self.stability_map.eval(d_in) {
            Ok(bound) => Ok(bound.le(d_out)),
            Err(e) => Err(e),
        }
    }

    /// The bound of a unit never decreases: where there is a bound for `d2`,
    /// there is one for every distance `d1` below `d2`, and it is no larger.
    pub proof fn lemma_map_monotone(&self, d1: MI::Distance, d2: MI::Distance)
        requires
            self.wf(),
            d1.spec_valid(),
            d1.spec_le(&d2),
            self.stability_map.spec_eval(d2) is Ok,
        ensures
            self.stability_map.spec_eval(d1) is Ok,
            self.stability_map.spec_eval(d1)->Ok_0.spec_le(&self.stability_map.spec_eval(d2)->Ok_0),
    {
        self.stability_map.lemma_monotone(d1, d2);
    }

    /// No claim is checked for what is no distance.
    pub proof fn lemma_check_rejects_invalid(&self, d_in: MI::Distance, d_out: MO::Distance)
        requires
            self.wf(),
            !d_in.spec_valid(),
        ensures
            self.spec_check(d_in, d_out) == Err::<bool, Error>(Error::InvalidDistance),
    {
        self.stability_map.lemma_rejects_invalid(d_in);
    }
}

/// A randomized release with a privacy claim: inputs that are at most `d_in`
/// apart under `input_metric` give output distributions that are at most
/// `privacy_map(d_in)` apart under `output_measure`, provided that the noise
/// handed to `invoke` is drawn from the distribution that the function names.
///
/// The claim is that of whoever puts the function and the map together. What
/// is proved of the unit is that the function stays within the domains, which
/// `wf` states, and that the map is monotone, which is a law of [`BoundMap`].
pub struct Measurement<DI, DO, F, MI, MO, M> {
    pub input_domain: DI,
    pub output_domain: DO,
    pub function: F,
    pub input_metric: MI,
    pub output_measure: MO,
    pub privacy_map: M,
}

impl<DI, DO, F, MI, MO, M> Measurement<DI, DO, F, MI, MO, M> where
    DI: Domain,
    DO: Domain,
    F: Mechanism<In = DI::Carrier, Out = DO::Carrier>,
    MI: Metric,
    MO: Measure,
    M: BoundMap<In = MI::Distance, Out = MO::Distance>,
 {
    /// Whether `function` releases, for every member of the input domain and
    /// every draw, a member of the output domain.
    pub open spec fn maps_into(input_domain: DI, output_domain: DO, function: F) -> bool {
        forall|x: DI::Carrier, noise: F::Noise, y: Fallible<DO::Carrier>|
            input_domain.spec_member(&x) && #[trigger] function.spec_release(&x, &noise, &y) && y is Ok
                ==> output_domain.spec_member(&y->Ok_0)
    }

    /// The invariant of a unit: its parts are well formed, and its function
    /// takes the input domain into the output domain.
    pub open spec fn wf(&self) -> bool {
        &&& self.function.wf()
        &&& self.privacy_map.wf()
        &&& Self::maps_into(self.input_domain, self.output_domain, self.function)
    }

    pub fn new(
        input_domain: DI,
        output_domain: DO,
        function: F,
        input_metric: MI,
        output_measure: MO,
        privacy_map: M,
    ) -> (r: Self)
        requires
            function.wf(),
            privacy_map.wf(),
            Self::maps_into(input_domain, output_domain, function),
        ensures
            r.wf(),
            r.input_domain == input_domain,
            r.output_domain == output_domain,
            r.function == function,
            r.input_metric == input_metric,
            r.output_measure == output_measure,
            r.privacy_map == privacy_map,
    {
        Measurement {
            input_domain,
            output_domain,
            function,
            input_metric,
            output_measure,
            privacy_map,
        }
    }

    /// Releases a member of the input domain under the draw `noise`.
    pub fn invoke(&self, arg: &DI::Carrier, noise: &F::Noise) -> (r: Fallible<DO::Carrier>)
        requires
            self.wf(),
            self.input_domain.spec_member(arg),
        ensures
            self.function.spec_release(arg, noise, &r),
            r is Ok ==> self.output_domain.spec_member(&r->Ok_0),
    {
        self.function.release(arg, noise)
    }

    /// The bound on the privacy loss for inputs at most `d_in` apart.
    pub fn map(&self, d_in: &MI::Distance) -> (r: Fallible<MO::Distance>)
        requires
            self.wf(),
        ensures
            r == self.privacy_map.spec_eval(*d_in),
    {
        self.privacy_map.eval(d_in)
    }

    /// What `check` returns: whether the bound for `d_in` is at most `d_out`,
    /// or why there is no bound.
    pub open spec fn spec_check(&self, d_in: MI::Distance, d_out: MO::Distance) -> Fallible<bool> {
        match self.privacy_map.spec_eval(d_in) {
            Ok(bound) => Ok(bound.spec_le(&d_out)),
            Err(e) => Err(e),
        }
    }

    /// Whether a release on inputs at most `d_in` apart is certified to lose
    /// at most `d_out`.
    pub fn check(&self, d_in: &MI::Distance, d_out: &MO::Distance) -> (r: Fallible<bool>) where
        MO::Distance: TotalDistance,

        requires
            self.wf(),
        ensures
            r == self.spec_check(*d_in, *d_out),
    {
        match self.privacy_map.eval(d_in) {
            Ok(bound) => Ok(bound.le(d_out)),
            Err(e) => Err(e),
        }
    }

    /// The bound of a unit never decreases: where there is a bound for `d2`,
    /// there is one for every distance `d1` below `d2`, and it is no larger.
    pub proof fn lemma_map_monotone(&self, d1: MI::Distance, d2: MI::Distance)
        requires
            self.wf(),
            d1.spec_valid(),
            d1.spec_le(&d2),
            self.privacy_map.spec_eval(d2) is Ok,
        ensures
            self.privacy_map.spec_eval(d1) is Ok,
            self.privacy_map.spec_eval(d1)->Ok_0.spec_le(&self.privacy_map.spec_eval(d2)->Ok_0),
    {
        self.privacy_map.lemma_monotone(d1, d2);
    }

    /// No claim is checked for what is no distance.
    pub proof fn lemma_check_rejects_invalid(&self, d_in: MI::Distance, d_out: MO::Distance)
        requires
            self.wf(),
            !d_in.spec_valid(),
        ensures
            self.spec_check(d_in, d_out) == Err::<bool, Error>(Error::InvalidDistance),
    {
        self.privacy_map.lemma_rejects_invalid(d_in);
    }
}

} // verus!
