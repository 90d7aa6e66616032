//! The discrete Gaussian mechanism: integer noise from the discrete Gaussian
//! distribution added to integers.
//!
//! The guarantee rests on draws that follow the distribution exactly. The
//! caller has to sample them in exact arithmetic on rationals of any size;
//! neither floating-point numbers nor the fixed-point numbers of this library
//! are fine enough in the tails of the distribution. At a scale of zero no
//! draw is needed: the release adds nothing.

use vstd::prelude::*;
use crate::domains::{AllDomain, Domain, VectorDomain};
use crate::error::{Error, Fallible};
use crate::fixed::{lemma_inf_div_antitone, lemma_inf_div_monotone, lemma_inf_mul_monotone, Fixed};
use crate::measurements::discrete_laplace::DiscreteLaplaceDomain;
use crate::measures::{Loss, ZeroConcentratedDivergence, TWO_BITS};
use crate::metrics::{AbsoluteDistance, L2Distance, Metric};
use crate::traits::Distance;
use crate::units::{BoundMap, Measurement, Mechanism};

verus! {

/// A domain of integers to whose every element the mechanism can add noise.
pub trait DiscreteGaussianDomain: DiscreteLaplaceDomain {
    /// The metric under which the sensitivity of a query into this domain is
    /// stated.
    type GaussianMetric: Metric<Distance = Fixed>;

    fn gaussian_metric() -> Self::GaussianMetric;
}

impl DiscreteGaussianDomain for AllDomain<i64> {
    type GaussianMetric = AbsoluteDistance;

    fn gaussian_metric() -> AbsoluteDistance {
        AbsoluteDistance::default()
    }
}

impl DiscreteGaussianDomain for VectorDomain<AllDomain<i64>> {
    type GaussianMetric = L2Distance;

    fn gaussian_metric() -> L2Distance {
        L2Distance::default()
    }
}

/// The function of the mechanism: it adds to each integer of its argument one
/// draw of discrete Gaussian noise of the given `scale`, and holds the sum
/// within the range of the integers. At a scale of zero nothing is added,
/// whatever the draw.
pub struct DiscreteGaussian<D> {
    pub scale: Fixed,
    pub marker: std::marker::PhantomData<D>,
}

impl<D: DiscreteGaussianDomain> Mechanism for DiscreteGaussian<D> {
    type In = D::Carrier;

    type Noise = D::Noise;

    type Out = D::Carrier;

    open spec fn wf(&self) -> bool {
        self.scale@ >= 0
    }

    open spec fn spec_release(
        &self,
        arg: &D::Carrier,
        noise: &D::Noise,
        out: &Fallible<D::Carrier>,
    ) -> bool {
        D::spec_perturb(arg, noise, None, self.scale@ == 0, out)
    }

    fn release(&self, arg: &D::Carrier, noise: &D::Noise) -> (r: Fallible<D::Carrier>) {
        D::perturb(arg, noise, None, self.scale.is_zero())
    }
}

/// The loss `(d_in / scale)^2 / 2`, every step rounded up.
pub open spec fn spec_rho(d_in: Fixed, scale: Fixed) -> Fallible<Fixed> {
    match d_in.spec_inf_div(&scale) {
        Err(e) => Err(e),
        Ok(ratio) => match ratio.spec_inf_mul(&ratio) {
            Err(e) => Err(e),
            Ok(square) => square.spec_inf_div(&Fixed { bits: TWO_BITS }),
        },
    }
}

/// The loss grows with the distance and falls as the scale grows.
pub proof fn lemma_rho_monotone(d1: Fixed, d2: Fixed, scale1: Fixed, scale2: Fixed)
    requires
        0 <= d1@ <= d2@,
        0 < scale2@ <= scale1@,
        spec_rho(d2, scale2) is Ok,
    ensures
        spec_rho(d1, scale1) is Ok,
        0 <= spec_rho(d1, scale1)->Ok_0@ <= spec_rho(d2, scale2)->Ok_0@,
{
    let two = Fixed { bits: TWO_BITS };
    lemma_inf_div_monotone(d1, d2, scale2);
    lemma_inf_div_antitone(d1, scale2, scale1);
    let r1 = d1.spec_inf_div(&scale1)->Ok_0;
    let r2 = d2.spec_inf_div(&scale2)->Ok_0;
    lemma_inf_mul_monotone(r1, r2, r2);
    assert(r2@ * r1@ == r1@ * r2@) by (nonlinear_arith);
    lemma_inf_mul_monotone(r1, r2, r1);
    let s1 = r1.spec_inf_mul(&r1)->Ok_0;
    let s2 = r2.spec_inf_mul(&r2)->Ok_0;
    lemma_inf_div_monotone(s1, s2, two);
}

/// The privacy map of the mechanism: a query of sensitivity `d_in` is released
/// at a loss of `(d_in / scale)^2 / 2` in zero-concentrated divergence.
#[derive(Clone, Copy, Debug, PartialEq, Eq, Structural)]
pub struct DiscreteGaussianMap {
    pub scale: Fixed,
}

impl BoundMap for DiscreteGaussianMap {
    type In = Fixed;

    type Out = Loss;

    open spec fn wf(&self) -> bool {
        self.scale@ >= 0
    }

    /// Nothing is lost at distance zero; at a positive distance, a scale of
    /// zero bounds nothing.
    open spec fn spec_eval(&self, d_in: Fixed) -> Fallible<Loss> {
        if d_in@ < 0 {
            Err(Error::InvalidDistance)
        } else if d_in@ == 0 {
            Ok(Loss::Finite(Fixed { bits: 0 }))
        } else if self.scale@ == 0 {
            Ok(Loss::Infinite)
        } else {
            match spec_rho(d_in, self.scale) {
                Ok(rho) => Ok(Loss::Finite(rho)),
                Err(e) => Err(e),
            }
        }
    }

    fn eval(&self, d_in: &Fixed) -> (r: Fallible<Loss>) {
        if d_in.is_sign_negative() {
            return Err(Error::InvalidDistance);
        }
        if d_in.is_zero() {
            return Ok(Loss::zero());
        }
        if self.scale.is_zero() {
            return Ok(Loss::Infinite);
        }
        let ratio = d_in.inf_div(&self.scale)?;
        let rho = ratio.inf_mul(&ratio)?.inf_div(&Fixed::from_bits(TWO_BITS))?;
        Ok(Loss::Finite(rho))
    }

    proof fn lemma_rejects_invalid(&self, d_in: Fixed) {
    }

    proof fn lemma_monotone(&self, d1: Fixed, d2: Fixed) {
        if self.scale@ > 0 && d2@ > 0 {
            lemma_rho_monotone(d1, d2, self.scale, self.scale);
            lemma_rho_monotone(d2, d2, self.scale, self.scale);
        }
    }
}

/// The discrete Gaussian mechanism with noise of the given `scale`, on the
/// integers or on vectors of integers.
///
/// Fails with `InvalidParameter` if the scale is negative.
pub fn make_base_discrete_gaussian<D: DiscreteGaussianDomain>(scale: Fixed) -> (r: Fallible<
    Measurement<
        D,
        D,
        DiscreteGaussian<D>,
        D::GaussianMetric,
        ZeroConcentratedDivergence,
        DiscreteGaussianMap,
    >,
>)
    ensures
        r is Err <==> scale@ < 0,
        r is Err ==> r->Err_0 == Error::InvalidParameter,
        r is Ok ==> {
            let m = r->Ok_0;
            &&& m.wf()
            &&& forall|x: D::Carrier| #[trigger] m.input_domain.spec_member(&x)
            &&& m.function.scale == scale
            &&& m.privacy_map.scale == scale
        },
{
    if scale.is_sign_negative() {
        return Err(Error::InvalidParameter);
    }
    Ok(
        Measurement::new(
            D::default_domain(),
            D::default_domain(),
            DiscreteGaussian { scale, marker: std::marker::PhantomData },
            D::gaussian_metric(),
            ZeroConcentratedDivergence::default(),
            DiscreteGaussianMap { scale },
        ),
    )
}

} // verus!
