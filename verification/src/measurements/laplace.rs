//! The Laplace mechanism on fixed-point numbers: the value is rounded to a
//! grid, and noise from the discrete Laplace distribution on that grid is
//! added.

use vstd::prelude::*;
use crate::domains::{AllDomain, Domain};
use crate::error::{Error, Fallible};
use crate::fixed::{checked, Fixed};
use crate::measurements::{
    get_discretization_consts,
    grid_sampler,
    spec_grid_sampler,
    grid_step,
    noisy_count,
    noisy_count_of,
    spec_discretization_consts,
    spec_grid_step,
};
use crate::measurements::discrete_laplace::{effective, effective_noise};
use crate::measures::{
    lemma_loss_ratio_monotone,
    loss_ratio,
    spec_loss_ratio,
    Loss,
    MaxDivergence,
};
use crate::metrics::AbsoluteDistance;
use crate::samplers::LaplaceSampler;
use crate::units::{BoundMap, Measurement, Mechanism};

verus! {

/// The function of the mechanism. It rounds its argument to the grid and adds
/// `noise` steps of the grid, where `noise` is drawn from the discrete
/// Laplace distribution of scale `scale / step`. At a scale of zero nothing
/// is added.
#[derive(Clone, Copy, Debug, PartialEq, Eq, Structural)]
pub struct LaplaceRelease {
    pub scale: Fixed,
    pub k: i32,
    pub step: Fixed,
}

impl LaplaceRelease {
    /// The sampler of the draws of this mechanism.
    pub fn sampler(&self) -> (r: Fallible<LaplaceSampler>)
        ensures
            r == spec_grid_sampler(self.scale, self.step),
    {
        grid_sampler(&self.scale, &self.step)
    }
}

impl Mechanism for LaplaceRelease {
    type In = Fixed;

    type Noise = i64;

    type Out = Fixed;

    open spec fn wf(&self) -> bool {
        self.step@ > 0
    }

    open spec fn spec_release(&self, arg: &Fixed, noise: &i64, out: &Fallible<Fixed>) -> bool {
        *out == checked(noisy_count(*arg, effective(*noise, self.scale@ == 0), self.step))
    }

    fn release(&self, arg: &Fixed, noise: &i64) -> (r: Fallible<Fixed>) {
        noisy_count_of(*arg, effective_noise(*noise, self.scale.is_zero()), self.step)
    }
}

/// The privacy map of the mechanism: a query of sensitivity `d_in` is
/// released at a loss of `(d_in + relaxation) / scale`, rounded up.
#[derive(Clone, Copy, Debug, PartialEq, Eq, Structural)]
pub struct LaplaceMap {
    pub scale: Fixed,
    pub relaxation: Fixed,
}

impl BoundMap for LaplaceMap {
    type In = Fixed;

    type Out = Loss;

    open spec fn wf(&self) -> bool {
        self.scale@ >= 0 && self.relaxation@ >= 0
    }

    open spec fn spec_eval(&self, d_in: Fixed) -> Fallible<Loss> {
        if d_in@ < 0 {
            Err(Error::InvalidDistance)
        } else {
            match d_in.spec_add(&self.relaxation) {
                Err(e) => Err(e),
                Ok(d) => spec_loss_ratio(d, self.scale),
            }
        }
    }

    fn eval(&self, d_in: &Fixed) -> (r: Fallible<Loss>) {
        if d_in.is_sign_negative() {
            return Err(Error::InvalidDistance);
        }
        let d = d_in.inf_add(&self.relaxation)?;
        loss_ratio(&d, &self.scale)
    }

    proof fn lemma_rejects_invalid(&self, d_in: Fixed) {
    }

    proof fn lemma_monotone(&self, d1: Fixed, d2: Fixed) {
        lemma_loss_ratio_monotone(
            d1.spec_add(&self.relaxation)->Ok_0,
            d2.spec_add(&self.relaxation)->Ok_0,
            self.scale,
        );
    }
}

/// The Laplace mechanism with noise of the given `scale`. `k` is the exponent
/// of the grid on which the noise is sampled; by default it is the finest.
///
/// Fails with `InvalidParameter` if the scale is negative, and with
/// `ArithmeticFailure` if the step of the grid is out of range.
pub fn make_base_laplace(scale: Fixed, k: Option<i32>) -> (r: Fallible<
    Measurement<
        AllDomain<Fixed>,
        AllDomain<Fixed>,
        LaplaceRelease,
        AbsoluteDistance,
        MaxDivergence,
        LaplaceMap,
    >,
>)
    ensures
        r is Ok <==> scale@ >= 0 && spec_discretization_consts(k) is Ok,
        scale@ < 0 ==> r is Err && r->Err_0 == Error::InvalidParameter,
        scale@ >= 0 && spec_discretization_consts(k) is Err ==> r is Err && r->Err_0
            == Error::ArithmeticFailure,
        r is Ok ==> {
            let m = r->Ok_0;
            let consts = spec_discretization_consts(k)->Ok_0;
            &&& m.wf()
            &&& m.function.scale == scale
            &&& m.function.k == consts.0
            &&& m.function.step@ == spec_grid_step(consts.0)
            &&& m.privacy_map == (LaplaceMap { scale, relaxation: consts.1 })
        },
{
    if scale.is_sign_negative() {
        return Err(Error::InvalidParameter);
    }
    let (k, relaxation) = get_discretization_consts(k)?;
    let step = grid_step(relaxation);
    Ok(
        Measurement::new(
            AllDomain::new(),
            AllDomain::new(),
            LaplaceRelease { scale, k, step },
            AbsoluteDistance::default(),
            MaxDivergence::default(),
            LaplaceMap { scale, relaxation },
        ),
    )
}

} // verus!
