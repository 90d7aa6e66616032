//! The discrete Laplace mechanism: integer noise added to integers.
//!
//! With bounds, the input is clamped into them before the noise is added and
//! the sum is clamped again. The noise then never has to reach further than
//! from one bound to the other, which lets it be sampled in a number of steps
//! that does not depend on the data.

use vstd::prelude::*;
use crate::domains::{AllDomain, Domain, VectorDomain};
use crate::error::{Error, Fallible};
use crate::fixed::{unit, Fixed};
use crate::measures::{
    lemma_loss_ratio_monotone,
    loss_ratio,
    spec_loss_ratio,
    Loss,
    MaxDivergence,
};
use crate::metrics::{IntAbsoluteDistance, IntL1Distance, Metric};
use crate::samplers::LaplaceSampler;
use crate::units::{BoundMap, Measurement, Mechanism};

verus! {

/// `x`, moved to the nearest point of the bounds if there are any.
pub open spec fn clamp(x: int, bounds: Option<(i64, i64)>) -> int {
    match bounds {
        Some((lower, upper)) => if x < lower {
            lower as int
        } else if x > upper {
            upper as int
        } else {
            x
        },
        None => x,
    }
}

/// `x`, moved to the nearest 64-bit integer.
pub open spec fn saturate(x: int) -> int {
    if x < i64::MIN {
        i64::MIN as int
    } else if x > i64::MAX {
        i64::MAX as int
    } else {
        x
    }
}

/// What is released for the value `x` under the draw `noise`: the clamped
/// value plus the noise, held within the integer range and clamped again.
pub open spec fn noisy(x: i64, noise: i64, bounds: Option<(i64, i64)>) -> int {
    clamp(saturate(clamp(x as int, bounds) + noise), bounds)
}

/// The draw that counts: the draw itself, or zero where the mechanism is
/// silent.
pub open spec fn effective(noise: i64, silent: bool) -> i64 {
    if silent {
        0
    } else {
        noise
    }
}

pub fn effective_noise(noise: i64, silent: bool) -> (r: i64)
    ensures
        r == effective(noise, silent),
{
    if silent {
        0
    } else {
        noise
    }
}

/// With ordered bounds, whatever is released lies within them.
pub proof fn lemma_noisy_within_bounds(x: i64, noise: i64, lower: i64, upper: i64)
    requires
        lower <= upper,
    ensures
        lower <= noisy(x, noise, Some((lower, upper))) <= upper,
{
}

fn clamp_value(x: i64, bounds: Option<(i64, i64)>) -> (r: i64)
    ensures
        r == clamp(x as int, bounds),
{
    match bounds {
        Some((lower, upper)) => if x < lower {
            lower
        } else if x > upper {
            upper
        } else {
            x
        },
        None => x,
    }
}

/// Adds the draw `noise` to the value `x`.
pub fn add_noise(x: i64, noise: i64, bounds: Option<(i64, i64)>) -> (r: i64)
    ensures
        r == noisy(x, noise, bounds),
{
    let shift = clamp_value(x, bounds);
    let sum = match shift.checked_add(noise) {
        Some(sum) => sum,
        None => if noise < 0 {
            i64::MIN
        } else {
            i64::MAX
        },
    };
    clamp_value(sum, bounds)
}

/// A domain of integers, or of collections of integers, to whose every
/// element the mechanism can add noise.
pub trait DiscreteLaplaceDomain: Domain + Sized {
    /// One draw of noise for each integer of a member.
    type Noise;

    /// The metric under which the sensitivity of a query into this domain is
    /// stated.
    type InputMetric: Metric<Distance = i64>;

    fn default_domain() -> (r: Self)
        ensures
            forall|x: Self::Carrier| #[trigger] r.spec_member(&x),
    ;

    fn default_metric() -> Self::InputMetric;

    /// Whether `out` is `arg` with the draw added to each integer, or the
    /// failure that the draw has the wrong shape. Where the mechanism is
    /// `silent`, because its scale is zero, nothing is added whatever the
    /// draw: noise of scale zero is zero.
    spec fn spec_perturb(
        arg: &Self::Carrier,
        noise: &Self::Noise,
        bounds: Option<(i64, i64)>,
        silent: bool,
        out: &Fallible<Self::Carrier>,
    ) -> bool;

    fn perturb(
        arg: &Self::Carrier,
        noise: &Self::Noise,
        bounds: Option<(i64, i64)>,
        silent: bool,
    ) -> (r: Fallible<Self::Carrier>)
        ensures
            Self::spec_perturb(arg, noise, bounds, silent, &r),
    ;
}

impl DiscreteLaplaceDomain for AllDomain<i64> {
    type Noise = i64;

    type InputMetric = IntAbsoluteDistance;

    fn default_domain() -> (r: Self) {
        AllDomain::new()
    }

    fn default_metric() -> IntAbsoluteDistance {
        IntAbsoluteDistance::default()
    }

    open spec fn spec_perturb(
        arg: &i64,
        noise: &i64,
        bounds: Option<(i64, i64)>,
        silent: bool,
        out: &Fallible<i64>,
    ) -> bool {
        *out == Ok::<i64, Error>(noisy(*arg, effective(*noise, silent), bounds) as i64)
    }

    fn perturb(arg: &i64, noise: &i64, bounds: Option<(i64, i64)>, silent: bool) -> (r: Fallible<
        i64,
    >) {
        Ok(add_noise(*arg, effective_noise(*noise, silent), bounds))
    }
}

impl DiscreteLaplaceDomain for VectorDomain<AllDomain<i64>> {
    type Noise = Vec<i64>;

    type InputMetric = IntL1Distance;

    fn default_domain() -> (r: Self) {
        VectorDomain::new_all()
    }

    fn default_metric() -> IntL1Distance {
        IntL1Distance::default()
    }

    /// One draw is needed for each element; with any other number of draws
    /// nothing is released, unless the mechanism is silent and needs none.
    open spec fn spec_perturb(
        arg: &Vec<i64>,
        noise: &Vec<i64>,
        bounds: Option<(i64, i64)>,
        silent: bool,
        out: &Fallible<Vec<i64>>,
    ) -> bool {
        if !silent && arg@.len() != noise@.len() {
            *out == Err::<Vec<i64>, Error>(Error::FailedFunction)
        } else {
            &&& *out is Ok
            &&& out->Ok_0@.len() == arg@.len()
            &&& forall|i: int|
                0 <= i < arg@.len() ==> #[trigger] out->Ok_0@[i] == noisy(
                    arg@[i],
                    effective(noise@[i], silent),
                    bounds,
                )
        }
    }

    fn perturb(arg: &Vec<i64>, noise: &Vec<i64>, bounds: Option<(i64, i64)>, silent: bool) -> (r:
        Fallible<Vec<i64>>) {
        if !silent && arg.len() != noise.len() {
            return Err(Error::FailedFunction);
        }
        let mut released: Vec<i64> = Vec::new();
        let mut i: usize = 0;
        while i < arg.len()
            invariant
                i <= arg@.len(),
                silent || arg@.len() == noise@.len(),
                released@.len() == i,
                forall|j: int|
                    0 <= j < i ==> #[trigger] released@[j] == noisy(
                        arg@[j],
                        effective(noise@[j], silent),
                        bounds,
                    ),
            decreases arg@.len() - i,
        {
            let draw = if silent {
                0
            } else {
                noise[i]
            };
            released.push(add_noise(arg[i], draw, bounds));
            i += 1;
        }
        Ok(released)
    }
}

/// The function of the mechanism: it adds to each integer of its argument one
/// draw of discrete Laplace noise of the given `scale`. The draws are made
/// with the sampler of [`crate::samplers`], one walk for each integer. At a
/// scale of zero nothing is added.
pub struct DiscreteLaplaceLinear<D> {
    pub scale: Fixed,
    pub bounds: Option<(i64, i64)>,
    pub marker: std::marker::PhantomData<D>,
}

impl<D> DiscreteLaplaceLinear<D> {
    /// The sampler of the draws of this mechanism.
    pub fn sampler(&self) -> (r: Fallible<LaplaceSampler>)
        ensures
            r == LaplaceSampler::spec_new(self.scale, self.bounds),
    {
        LaplaceSampler::new(self.scale, self.bounds)
    }
}

impl<D: DiscreteLaplaceDomain> Mechanism for DiscreteLaplaceLinear<D> {
    type In = D::Carrier;

    type Noise = D::Noise;

    type Out = D::Carrier;

    open spec fn wf(&self) -> bool {
        &&& self.scale@ >= 0
        &&& self.bounds is Some ==> self.bounds->Some_0.0 <= self.bounds->Some_0.1
    }

    open spec fn spec_release(
        &self,
        arg: &D::Carrier,
        noise: &D::Noise,
        out: &Fallible<D::Carrier>,
    ) -> bool {
        D::spec_perturb(arg, noise, self.bounds, self.scale@ == 0, out)
    }

    fn release(&self, arg: &D::Carrier, noise: &D::Noise) -> (r: Fallible<D::Carrier>) {
        D::perturb(arg, noise, self.bounds, self.scale.is_zero())
    }
}

/// The privacy map of the mechanism: a query of sensitivity `d_in` is released
/// at a loss of `d_in / scale`, rounded up.
#[derive(Clone, Copy, Debug, PartialEq, Eq, Structural)]
pub struct DiscreteLaplaceMap {
    pub scale: Fixed,
}

impl BoundMap for DiscreteLaplaceMap {
    type In = i64;

    type Out = Loss;

    open spec fn wf(&self) -> bool {
        self.scale@ >= 0
    }

    /// A distance that is no fixed-point number has no bound.
    open spec fn spec_eval(&self, d_in: i64) -> Fallible<Loss> {
        if d_in < 0 {
            Err(Error::InvalidDistance)
        } else {
            match Fixed::spec_exact_int_cast(d_in as int) {
                Err(e) => Err(e),
                Ok(d) => spec_loss_ratio(d, self.scale),
            }
        }
    }

    fn eval(&self, d_in: &i64) -> (r: Fallible<Loss>) {
        if *d_in < 0 {
            return Err(Error::InvalidDistance);
        }
        let d = Fixed::exact_int_cast(*d_in)?;
        loss_ratio(&d, &self.scale)
    }

    proof fn lemma_rejects_invalid(&self, d_in: i64) {
    }

    proof fn lemma_monotone(&self, d1: i64, d2: i64) {
        assert(0 <= d1 * unit() <= d2 * unit()) by (nonlinear_arith)
            requires
                0 <= d1 <= d2,
                unit() > 0,
        ;
        lemma_loss_ratio_monotone(
            Fixed::spec_exact_int_cast(d1 as int)->Ok_0,
            Fixed::spec_exact_int_cast(d2 as int)->Ok_0,
            self.scale,
        );
    }
}

/// The discrete Laplace mechanism with noise of the given `scale`, on the
/// integers or on vectors of integers. With `bounds`, input and output are
/// clamped into them.
///
/// Fails with `InvalidParameter` if the scale is negative or the lower bound
/// is above the upper.
pub fn make_base_discrete_laplace_linear<D: DiscreteLaplaceDomain>(
    scale: Fixed,
    bounds: Option<(i64, i64)>,
) -> (r: Fallible<
    Measurement<D, D, DiscreteLaplaceLinear<D>, D::InputMetric, MaxDivergence, DiscreteLaplaceMap>,
>)
    ensures
        r is Err <==> scale@ < 0 || (bounds is Some && bounds->Some_0.0 > bounds->Some_0.1),
        r is Err ==> r->Err_0 == Error::InvalidParameter,
        r is Ok ==> {
            let m = r->Ok_0;
            &&& m.wf()
            &&& forall|x: D::Carrier| #[trigger] m.input_domain.spec_member(&x)
            &&& m.function.scale == scale
            &&& m.function.bounds == bounds
            &&& m.privacy_map.scale == scale
        },
{
    if scale.is_sign_negative() {
        return Err(Error::InvalidParameter);
    }
    match bounds {
        Some((lower, upper)) => {
            if lower > upper {
                return Err(Error::InvalidParameter);
            }
        },
        None => {},
    }
    Ok(
        Measurement::new(
            D::default_domain(),
            D::default_domain(),
            DiscreteLaplaceLinear { scale, bounds, marker: std::marker::PhantomData },
            D::default_metric(),
            MaxDivergence::default(),
            DiscreteLaplaceMap { scale },
        ),
    )
}

/// The discrete Laplace mechanism under its earlier name.
pub fn make_base_geometric<D: DiscreteLaplaceDomain>(
    scale: Fixed,
    bounds: Option<(i64, i64)>,
) -> (r: Fallible<
    Measurement<D, D, DiscreteLaplaceLinear<D>, D::InputMetric, MaxDivergence, DiscreteLaplaceMap>,
>)
    ensures
        r is Err <==> scale@ < 0 || (bounds is Some && bounds->Some_0.0 > bounds->Some_0.1),
        r is Err ==> r->Err_0 == Error::InvalidParameter,
        r is Ok ==> {
            let m = r->Ok_0;
            &&& m.wf()
            &&& forall|x: D::Carrier| #[trigger] m.input_domain.spec_member(&x)
            &&& m.function.scale == scale
            &&& m.function.bounds == bounds
            &&& m.privacy_map.scale == scale
        },
{
    make_base_discrete_laplace_linear(scale, bounds)
}

} // verus!
