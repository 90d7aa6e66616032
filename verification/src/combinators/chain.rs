//! Chaining: the unit that runs one unit after another.
//!
//! The function of the chain is the composition of the two functions, and its
//! map is the composition of the two maps, exactly. A transformation can be
//! followed by a transformation or by a measurement; nothing follows a
//! measurement.

use vstd::prelude::*;
use crate::domains::Domain;
use crate::error::{Error, Fallible};
use crate::measures::Measure;
use crate::metrics::Metric;
use crate::units::{BoundMap, Function, Measurement, Mechanism, Transformation};

verus! {

/// The function that applies `first` and then `second`.
pub struct ChainFunction<A, B> {
    pub first: A,
    pub second: B,
}

impl<A: Function, B: Function<In = A::Out>> Function for ChainFunction<A, B> {
    type In = A::In;

    type Out = B::Out;

    open spec fn wf(&self) -> bool {
        self.first.wf() && self.second.wf()
    }

    open spec fn spec_eval(&self, arg: &A::In, out: &Fallible<B::Out>) -> bool {
        exists|mid: Fallible<A::Out>| #[trigger]
            self.first.spec_eval(arg, &mid) && match mid {
                Ok(m) => self.second.spec_eval(&m, out),
                Err(e) => *out == Err::<B::Out, Error>(e),
            }
    }

    fn eval(&self, arg: &A::In) -> (r: Fallible<B::Out>) {
        let mid = self.first.eval(arg);
        match mid {
            Ok(m) => {
                let r = self.second.eval(&m);
                assert(self.first.spec_eval(arg, &Ok(m)));
                r
            },
            Err(e) => {
                assert(self.first.spec_eval(arg, &Err(e)));
                Err(e)
            },
        }
    }
}

/// The mechanism that applies the function `first` and then releases its
/// result through `second`.
pub struct ChainMechanism<A, B> {
    pub first: A,
    pub second: B,
}

impl<A: Function, B: Mechanism<In = A::Out>> Mechanism for ChainMechanism<A, B> {
    type In = A::In;

    type Noise = B::Noise;

    type Out = B::Out;

    open spec fn wf(&self) -> bool {
        self.first.wf() && self.second.wf()
    }

    open spec fn spec_release(&self, arg: &A::In, noise: &B::Noise, out: &Fallible<B::Out>) -> bool {
        exists|mid: Fallible<A::Out>| #[trigger]
            self.first.spec_eval(arg, &mid) && match mid {
                Ok(m) => self.second.spec_release(&m, noise, out),
                Err(e) => *out == Err::<B::Out, Error>(e),
            }
    }

    fn release(&self, arg: &A::In, noise: &B::Noise) -> (r: Fallible<B::Out>) {
        let mid = self.first.eval(arg);
        match mid {
            Ok(m) => {
                let r = self.second.release(&m, noise);
                assert(self.first.spec_eval(arg, &Ok(m)));
                r
            },
            Err(e) => {
                assert(self.first.spec_eval(arg, &Err(e)));
                Err(e)
            },
        }
    }
}

/// The map that applies `first` and then `second`.
pub struct ChainMap<A, B> {
    pub first: A,
    pub second: B,
}

impl<A: BoundMap, B: BoundMap<In = A::Out>> BoundMap for ChainMap<A, B> {
    type In = A::In;

    type Out = B::Out;

    open spec fn wf(&self) -> bool {
        self.first.wf() && self.second.wf()
    }

    open spec fn spec_eval(&self, d_in: A::In) -> Fallible<B::Out> {
        match self.first.spec_eval(d_in) {
            Ok(d_mid) => self.second.spec_eval(d_mid),
            Err(e) => Err(e),
        }
    }

    fn eval(&self, d_in: &A::In) -> (r: Fallible<B::Out>) {
        match self.first.eval(d_in) {
            Ok(d_mid) => self.second.eval(&d_mid),
            Err(e) => Err(e),
        }
    }

    proof fn lemma_rejects_invalid(&self, d_in: A::In) {
        self.first.lemma_rejects_invalid(d_in);
    }

    proof fn lemma_monotone(&self, d1: A::In, d2: A::In) {
        self.first.lemma_monotone(d1, d2);
        self.second.lemma_monotone(self.first.spec_eval(d1)->Ok_0, self.first.spec_eval(d2)->Ok_0);
    }
}

/// The map of a chain is the second map applied to what the first map gives,
/// with nothing lost or added in between.
pub proof fn lemma_chain_map_exact<A: BoundMap, B: BoundMap<In = A::Out>>(
    first: A,
    second: B,
    d_in: A::In,
)
    ensures
        (ChainMap { first, second }).spec_eval(d_in) == (match first.spec_eval(d_in) {
            Ok(d_mid) => second.spec_eval(d_mid),
            Err(e) => Err(e),
        }),
{
}

/// The transformation that applies `transformation0` and then
/// `transformation1`. The two must agree at the joint: the output domain and
/// metric of the first are the input domain and metric of the second.
pub fn make_chain_tt<DI, DX, DO, F0, F1, MI, MX, MO, M0, M1>(
    transformation1: Transformation<DX, DO, F1, MX, MO, M1>,
    transformation0: Transformation<DI, DX, F0, MI, MX, M0>,
) -> (r: Fallible<
    Transformation<DI, DO, ChainFunction<F0, F1>, MI, MO, ChainMap<M0, M1>>,
>) where
    DI: Domain,
    DX: Domain,
    DO: Domain,
    F0: Function<In = DI::Carrier, Out = DX::Carrier>,
    F1: Function<In = DX::Carrier, Out = DO::Carrier>,
    MI: Metric,
    MX: Metric,
    MO: Metric,
    M0: BoundMap<In = MI::Distance, Out = MX::Distance>,
    M1: BoundMap<In = MX::Distance, Out = MO::Distance>,

    requires
        transformation0.wf(),
        transformation1.wf(),
    ensures
        r is Ok <==> transformation0.output_domain.spec_same(&transformation1.input_domain)
            && transformation0.output_metric.spec_same(&transformation1.input_metric),
        r is Err ==> r->Err_0 == Error::DomainMismatch,
        r is Ok ==> {
            let t = r->Ok_0;
            &&& t.wf()
            &&& t.input_domain == transformation0.input_domain
            &&& t.output_domain == transformation1.output_domain
            &&& t.function == (ChainFunction {
                first: transformation0.function,
                second: transformation1.function,
            })
            &&& t.input_metric == transformation0.input_metric
            &&& t.output_metric == transformation1.output_metric
            &&& t.stability_map == (ChainMap {
                first: transformation0.stability_map,
                second: transformation1.stability_map,
            })
        },
{
    if !transformation0.output_domain.same(&transformation1.input_domain) {
        return Err(Error::DomainMismatch);
    }
    if !transformation0.output_metric.same(&transformation1.input_metric) {
        return Err(Error::DomainMismatch);
    }
    let function = ChainFunction {
        first: transformation0.function,
        second: transformation1.function,
    };
    let stability_map = ChainMap {
        first: transformation0.stability_map,
        second: transformation1.stability_map,
    };
    proof {
        assert forall|x: DI::Carrier, y: Fallible<DO::Carrier>|
            transformation0.input_domain.spec_member(&x) && #[trigger] function.spec_eval(&x, &y)
                && y is Ok implies transformation1.output_domain.spec_member(&y->Ok_0) by {
            let mid = choose|mid: Fallible<DX::Carrier>| #[trigger]
                function.first.spec_eval(&x, &mid) && match mid {
                    Ok(m) => function.second.spec_eval(&m, &y),
                    Err(e) => y == Err::<DO::Carrier, Error>(e),
                };
            let m = mid->Ok_0;
            transformation0.output_domain.lemma_same_members(&transformation1.input_domain, &m);
        }
    }
    Ok(
        Transformation::new(
            transformation0.input_domain,
            transformation1.output_domain,
            function,
            transformation0.input_metric,
            transformation1.output_metric,
            stability_map,
        ),
    )
}

/// The measurement that applies `transformation0` and then releases its result
/// through `measurement1`. The two must agree at the joint: the output domain
/// and metric of the transformation are the input domain and metric of the
/// measurement.
pub fn make_chain_mt<DI, DX, DO, F0, F1, MI, MX, MO, M0, M1>(
    measurement1: Measurement<DX, DO, F1, MX, MO, M1>,
    transformation0: Transformation<DI, DX, F0, MI, MX, M0>,
) -> (r: Fallible<
    Measurement<DI, DO, ChainMechanism<F0, F1>, MI, MO, ChainMap<M0, M1>>,
>) where
    DI: Domain,
    DX: Domain,
    DO: Domain,
    F0: Function<In = DI::Carrier, Out = DX::Carrier>,
    F1: Mechanism<In = DX::Carrier, Out = DO::Carrier>,
    MI: Metric,
    MX: Metric,
    MO: Measure,
    M0: BoundMap<In = MI::Distance, Out = MX::Distance>,
    M1: BoundMap<In = MX::Distance, Out = MO::Distance>,

    requires
        transformation0.wf(),
        measurement1.wf(),
    ensures
        r is Ok <==> transformation0.output_domain.spec_same(&measurement1.input_domain)
            && transformation0.output_metric.spec_same(&measurement1.input_metric),
        r is Err ==> r->Err_0 == Error::DomainMismatch,
        r is Ok ==> {
            let m = r->Ok_0;
            &&& m.wf()
            &&& m.input_domain == transformation0.input_domain
            &&& m.output_domain == measurement1.output_domain
            &&& m.function == (ChainMechanism {
                first: transformation0.function,
                second: measurement1.function,
            })
            &&& m.input_metric == transformation0.input_metric
            &&& m.output_measure == measurement1.output_measure
            &&& m.privacy_map == (ChainMap {
                first: transformation0.stability_map,
                second: measurement1.privacy_map,
            })
        },
{
    if !transformation0.output_domain.same(&measurement1.input_domain) {
        return Err(Error::DomainMismatch);
    }
    if !transformation0.output_metric.same(&measurement1.input_metric) {
        return Err(Error::DomainMismatch);
    }
    let function = ChainMechanism {
        first: transformation0.function,
        second: measurement1.function,
    };
    let privacy_map = ChainMap {
        first: transformation0.stability_map,
        second: measurement1.privacy_map,
    };
    proof {
        assert forall|x: DI::Carrier, noise: F1::Noise, y: Fallible<DO::Carrier>|
            transformation0.input_domain.spec_member(&x) && #[trigger] function.spec_release(
                &x,
                &noise,
                &y,
            ) && y is Ok implies measurement1.output_domain.spec_member(&y->Ok_0) by {
            let mid = choose|mid: Fallible<DX::Carrier>| #[trigger]
                function.first.spec_eval(&x, &mid) && match mid {
                    Ok(m) => function.second.spec_release(&m, &noise, &y),
                    Err(e) => y == Err::<DO::Carrier, Error>(e),
                };
            let m = mid->Ok_0;
            transformation0.output_domain.lemma_same_members(&measurement1.input_domain, &m);
        }
    }
    Ok(
        Measurement::new(
            transformation0.input_domain,
            measurement1.output_domain,
            function,
            transformation0.input_metric,
            measurement1.output_measure,
            privacy_map,
        ),
    )
}

} // verus!
