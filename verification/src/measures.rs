//! Measures: the units in which the privacy loss of a release is counted.

use vstd::prelude::*;
use crate::error::{Error, Fallible};
use crate::fixed::{ceil_div, unit, Fixed, ONE_BITS};
use crate::traits::{Distance, TotalDistance};
use crate::transcendental::{lemma_inf_ln_monotone, lemma_neg_inf_ln_monotone};

verus! {

/// A bound on a privacy loss: a number, or no bound at all.
#[derive(Clone, Copy, Debug, PartialEq, Eq, Structural)]
pub enum Loss {
    Finite(Fixed),
    Infinite,
}

impl Loss {
    pub fn zero() -> (r: Loss)
        ensures
            r == Loss::Finite(Fixed { bits: 0 }),
    {
        Loss::Finite(Fixed::zero())
    }
}

impl Distance for Loss {
    open spec fn spec_valid(&self) -> bool {
        match *self {
            Loss::Finite(v) => v@ >= 0,
            Loss::Infinite => true,
        }
    }

    open spec fn spec_le(&self, other: &Self) -> bool {
        match (*self, *other) {
            (Loss::Finite(a), Loss::Finite(b)) => a@ <= b@,
            (_, Loss::Infinite) => true,
            (Loss::Infinite, Loss::Finite(_)) => false,
        }
    }
}

impl TotalDistance for Loss {
    fn is_valid(&self) -> (r: bool) {
        match self {
            Loss::Finite(v) => !v.is_sign_negative(),
            Loss::Infinite => true,
        }
    }

    fn le(&self, other: &Self) -> (r: bool) {
        match other {
            Loss::Infinite => true,
            Loss::Finite(b) => match self {
                Loss::Finite(a) => a.le(b),
                Loss::Infinite => false,
            },
        }
    }
}

/// The loss `distance / scale`, rounded up. Nothing is lost at distance zero;
/// at a positive distance, a scale of zero bounds nothing.
pub open spec fn spec_loss_ratio(distance: Fixed, scale: Fixed) -> Fallible<Loss> {
    if distance@ == 0 {
        Ok(Loss::Finite(Fixed { bits: 0 }))
    } else if scale@ == 0 {
        Ok(Loss::Infinite)
    } else {
        match distance.spec_inf_div(&scale) {
            Ok(epsilon) => Ok(Loss::Finite(epsilon)),
            Err(e) => Err(e),
        }
    }
}

pub fn loss_ratio(distance: &Fixed, scale: &Fixed) -> (r: Fallible<Loss>)
    ensures
        r == spec_loss_ratio(*distance, *scale),
{
    if distance.is_zero() {
        return Ok(Loss::zero());
    }
    if scale.is_zero() {
        return Ok(Loss::Infinite);
    }
    Ok(Loss::Finite(distance.inf_div(scale)?))
}

/// The loss grows with the distance, is defined wherever it is defined for a
/// larger distance, and is never negative.
pub proof fn lemma_loss_ratio_monotone(d1: Fixed, d2: Fixed, scale: Fixed)
    requires
        0 <= d1@ <= d2@,
        0 <= scale@,
        spec_loss_ratio(d2, scale) is Ok,
    ensures
        spec_loss_ratio(d1, scale) is Ok,
        spec_loss_ratio(d1, scale)->Ok_0.spec_valid(),
        spec_loss_ratio(d1, scale)->Ok_0.spec_le(&spec_loss_ratio(d2, scale)->Ok_0),
{
    if scale@ > 0 && d2@ > 0 {
        crate::fixed::lemma_inf_div_monotone(d1, d2, scale);
        crate::fixed::lemma_inf_div_monotone(d2, d2, scale);
    }
}

/// The way in which two output distributions are compared, and the type of
/// the privacy losses that the comparison yields.
pub trait Measure {
    type Distance: Distance;

    /// Whether the two descriptors name the same measure.
    spec fn spec_same(&self, other: &Self) -> bool;

    fn same(&self, other: &Self) -> (r: bool)
        ensures
            r == self.spec_same(other),
    ;
}

/// Pure differential privacy: the loss is a single `epsilon`.
#[derive(Clone, Copy, Debug, PartialEq, Eq, Structural)]
pub struct MaxDivergence {}

impl MaxDivergence {
    pub fn default() -> (r: Self) {
        MaxDivergence {  }
    }
}

impl Measure for MaxDivergence {
    type Distance = Loss;

    open spec fn spec_same(&self, other: &Self) -> bool {
        true
    }

    fn same(&self, other: &Self) -> (r: bool) {
        true
    }
}

/// Approximate differential privacy at one tolerance: the loss is a pair
/// `(epsilon, delta)`.
#[derive(Clone, Copy, Debug, PartialEq, Eq, Structural)]
pub struct FixedSmoothedMaxDivergence {}

impl FixedSmoothedMaxDivergence {
    pub fn default() -> (r: Self) {
        FixedSmoothedMaxDivergence {  }
    }
}

impl Measure for FixedSmoothedMaxDivergence {
    type Distance = (Loss, Fixed);

    open spec fn spec_same(&self, other: &Self) -> bool {
        true
    }

    fn same(&self, other: &Self) -> (r: bool) {
        true
    }
}

/// Zero-concentrated differential privacy: the loss is a single `rho`.
#[derive(Clone, Copy, Debug, PartialEq, Eq, Structural)]
pub struct ZeroConcentratedDivergence {}

impl ZeroConcentratedDivergence {
    pub fn default() -> (r: Self) {
        ZeroConcentratedDivergence {  }
    }
}

impl Measure for ZeroConcentratedDivergence {
    type Distance = Loss;

    open spec fn spec_same(&self, other: &Self) -> bool {
        true
    }

    fn same(&self, other: &Self) -> (r: bool) {
        true
    }
}

/// The raw value of the number two.
pub const TWO_BITS: i64 = 0x2_0000_0000;

/// An upper bound on `ln(distance / (2 delta))`, taken as `ln(distance) -
/// ln(delta) - ln(2)`: an upper bound on the first logarithm less lower
/// bounds on the other two. No quotient is formed, so that a small tolerance
/// does not lead out of the range of the numbers.
pub open spec fn spec_log_ratio(distance: Fixed, delta: Fixed) -> Fallible<Fixed> {
    match distance.spec_inf_ln() {
        Err(e) => Err(e),
        Ok(high) => match delta.spec_neg_inf_ln() {
            Err(e) => Err(e),
            Ok(low) => match (Fixed { bits: ONE_BITS }).spec_neg_inf_ln_1p() {
                Err(e) => Err(e),
                Ok(two) => match high.spec_sub(&low) {
                    Err(e) => Err(e),
                    Ok(ratio) => ratio.spec_sub(&two),
                },
            },
        },
    }
}

pub fn log_ratio(distance: &Fixed, delta: &Fixed) -> (r: Fallible<Fixed>)
    ensures
        r == spec_log_ratio(*distance, *delta),
{
    let high = distance.inf_ln()?;
    let low = delta.neg_inf_ln()?;
    let two = Fixed::one().neg_inf_ln_1p()?;
    high.inf_sub(&low)?.inf_sub(&two)
}

/// The upper bound on `ln(distance / (2 delta))` grows with the distance and
/// falls as the tolerance grows; it is defined wherever it is defined for a
/// larger distance or a smaller tolerance.
pub proof fn lemma_log_ratio_monotone(d1: Fixed, d2: Fixed, delta1: Fixed, delta2: Fixed)
    requires
        0 < d1@ <= d2@,
        0 < delta2@ <= delta1@,
        spec_log_ratio(d2, delta2) is Ok,
    ensures
        spec_log_ratio(d1, delta1) is Ok,
        spec_log_ratio(d1, delta1)->Ok_0@ <= spec_log_ratio(d2, delta2)->Ok_0@,
{
    lemma_inf_ln_monotone(d1, d2);
    lemma_neg_inf_ln_monotone(delta2, delta1);
    crate::transcendental::lemma_ln_1p_lower_exists(unit());
}

/// The raw value of `ln(distance / (2 delta)) * scale + distance`, every step
/// rounded up, before it is held against the range of the numbers.
pub open spec fn spec_min_threshold_bits(distance: Fixed, delta: Fixed, scale: Fixed) -> Fallible<
    int,
> {
    match spec_log_ratio(distance, delta) {
        Err(e) => Err(e),
        Ok(log) => Ok(ceil_div(log@ * scale@, unit()) + distance@),
    }
}

/// The least threshold at which counts may be released when a record changes
/// them by `distance` in all, the noise has the given `scale`, and a failure
/// with probability `delta` is tolerated: `ln(distance / (2 delta)) * scale +
/// distance`, every step rounded up.
///
/// At distance zero any threshold will do, and so it will where the least
/// threshold lies below every number that can be held. A least threshold
/// above every such number is a failure.
pub open spec fn spec_min_threshold(distance: Fixed, delta: Fixed, scale: Fixed) -> Fallible<
    Option<Fixed>,
> {
    if distance@ == 0 {
        Ok(None)
    } else {
        match spec_min_threshold_bits(distance, delta, scale) {
            Err(e) => Err(e),
            Ok(bits) => if bits > i64::MAX {
                Err(Error::ArithmeticFailure)
            } else if bits < i64::MIN {
                Ok(None)
            } else {
                Ok(Some(Fixed { bits: bits as i64 }))
            },
        }
    }
}

pub fn min_threshold(distance: &Fixed, delta: &Fixed, scale: &Fixed) -> (r: Fallible<
    Option<Fixed>,
>)
    ensures
        r == spec_min_threshold(*distance, *delta, *scale),
{
    if distance.is_zero() {
        return Ok(None);
    }
    let log = log_ratio(distance, delta)?;
    let bits: i128 = log.inf_mul_wide(scale) + distance.to_bits() as i128;
    if bits > 0x7fff_ffff_ffff_ffff {
        Err(Error::ArithmeticFailure)
    } else if bits < -0x8000_0000_0000_0000 {
        Ok(None)
    } else {
        Ok(Some(Fixed::from_bits(bits as i64)))
    }
}

/// A privacy loss that depends on the tolerance: for each probability `delta`
/// of failure that is tolerated, the `epsilon` that is lost.
///
/// This is the curve of a release of noisy counts that holds back every count
/// under `threshold`. Its `epsilon` does not depend on `delta`; what depends
/// on it is whether the threshold is high enough for the release to be
/// certified at all.
#[derive(Clone, Copy, Debug, PartialEq, Eq, Structural)]
pub struct SmdCurve {
    pub d_in: Fixed,
    pub relaxation: Fixed,
    pub scale: Fixed,
    pub threshold: Fixed,
}

impl SmdCurve {
    /// The parameters of a curve are all non-negative, but for the threshold.
    pub open spec fn wf(&self) -> bool {
        self.d_in@ >= 0 && self.relaxation@ >= 0 && self.scale@ >= 0
    }

    /// The loss at tolerance `delta`: the relaxed distance divided by the
    /// scale, provided that the threshold is at least the least threshold for
    /// `delta`.
    pub open spec fn spec_epsilon(&self, delta: Fixed) -> Fallible<Loss> {
        if delta@ <= 0 {
            Err(Error::FailedRelation)
        } else {
            match self.d_in.spec_add(&self.relaxation) {
                Err(e) => Err(e),
                Ok(distance) => match spec_loss_ratio(distance, self.scale) {
                    Err(e) => Err(e),
                    Ok(min_epsilon) => match spec_min_threshold(distance, delta, self.scale) {
                        Err(e) => Err(e),
                        Ok(None) => Ok(min_epsilon),
                        Ok(Some(min_threshold)) => if self.threshold@ < min_threshold@ {
                            Err(Error::RelationDebug { min_threshold })
                        } else {
                            Ok(min_epsilon)
                        },
                    },
                },
            }
        }
    }

    pub fn epsilon(&self, delta: &Fixed) -> (r: Fallible<Loss>)
        ensures
            r == self.spec_epsilon(*delta),
    {
        if delta.is_sign_negative() || delta.is_zero() {
            return Err(Error::FailedRelation);
        }
        let distance = self.d_in.inf_add(&self.relaxation)?;
        let min_epsilon = loss_ratio(&distance, &self.scale)?;
        match min_threshold(&distance, delta, &self.scale)? {
            None => Ok(min_epsilon),
            Some(min_threshold) => {
                if self.threshold.lt(&min_threshold) {
                    Err(Error::RelationDebug { min_threshold })
                } else {
                    Ok(min_epsilon)
                }
            },
        }
    }
}

/// The least threshold falls as the tolerance grows, and is defined wherever
/// it is defined for a smaller tolerance.
pub proof fn lemma_min_threshold_antitone(distance: Fixed, delta1: Fixed, delta2: Fixed, scale: Fixed)
    requires
        0 < distance@,
        0 <= scale@,
        0 < delta1@ <= delta2@,
        spec_min_threshold(distance, delta1, scale) is Ok,
    ensures
        spec_min_threshold(distance, delta2, scale) is Ok,
        spec_min_threshold(distance, delta2, scale)->Ok_0 is Some ==> spec_min_threshold(
            distance,
            delta1,
            scale,
        )->Ok_0 is Some && spec_min_threshold(distance, delta2, scale)->Ok_0->Some_0@
            <= spec_min_threshold(distance, delta1, scale)->Ok_0->Some_0@,
{
    lemma_log_ratio_monotone(distance, distance, delta2, delta1);
    lemma_spread_monotone(
        spec_log_ratio(distance, delta2)->Ok_0,
        spec_log_ratio(distance, delta1)->Ok_0,
        scale,
    );
}

/// The excess product with a non-negative scale grows with the other factor,
/// whatever its sign.
proof fn lemma_spread_monotone(l1: Fixed, l2: Fixed, scale: Fixed)
    requires
        l1@ <= l2@,
        0 <= scale@,
    ensures
        ceil_div(l1@ * scale@, unit()) <= ceil_div(l2@ * scale@, unit()),
{
    assert(l1@ * scale@ <= l2@ * scale@) by (nonlinear_arith)
        requires
            l1@ <= l2@,
            0 <= scale@,
    ;
    crate::fixed::lemma_div_monotone(l1@ * scale@, l2@ * scale@, unit());
}

/// A curve never rises: once a loss is certified at some tolerance, the same
/// loss is certified at every larger tolerance.
pub proof fn lemma_curve_non_increasing(curve: SmdCurve, delta1: Fixed, delta2: Fixed)
    requires
        curve.wf(),
        delta1@ <= delta2@,
        curve.spec_epsilon(delta1) is Ok,
    ensures
        curve.spec_epsilon(delta2) == curve.spec_epsilon(delta1),
{
    let distance = curve.d_in.spec_add(&curve.relaxation)->Ok_0;
    if distance@ > 0 {
        lemma_min_threshold_antitone(distance, delta1, delta2, curve.scale);
    }
}

/// The least threshold grows with the distance, and is defined wherever it is
/// defined for a larger distance.
pub proof fn lemma_min_threshold_monotone(d1: Fixed, d2: Fixed, delta: Fixed, scale: Fixed)
    requires
        0 < d1@ <= d2@,
        0 <= scale@,
        0 < delta@,
        spec_min_threshold(d2, delta, scale) is Ok,
    ensures
        spec_min_threshold(d1, delta, scale) is Ok,
        spec_min_threshold(d1, delta, scale)->Ok_0 is Some ==> spec_min_threshold(
            d2,
            delta,
            scale,
        )->Ok_0 is Some && spec_min_threshold(d1, delta, scale)->Ok_0->Some_0@
            <= spec_min_threshold(d2, delta, scale)->Ok_0->Some_0@,
{
    lemma_log_ratio_monotone(d1, d2, delta, delta);
    lemma_spread_monotone(spec_log_ratio(d1, delta)->Ok_0, spec_log_ratio(d2, delta)->Ok_0, scale);
}

/// Curves are ordered point by point: one curve is at most another if, at
/// every tolerance at which the other certifies a loss, it certifies a loss
/// no larger.
impl Distance for SmdCurve {
    open spec fn spec_valid(&self) -> bool {
        true
    }

    open spec fn spec_le(&self, other: &Self) -> bool {
        forall|delta: Fixed| #[trigger]
            other.spec_epsilon(delta) is Ok ==> self.spec_epsilon(delta) is Ok
                && self.spec_epsilon(delta)->Ok_0.spec_le(&other.spec_epsilon(delta)->Ok_0)
    }
}

/// Approximate differential privacy at every tolerance: the loss is a curve
/// from `delta` to `epsilon`.
#[derive(Clone, Copy, Debug, PartialEq, Eq, Structural)]
pub struct SmoothedMaxDivergence {}

impl SmoothedMaxDivergence {
    pub fn default() -> (r: Self) {
        SmoothedMaxDivergence {  }
    }
}

impl Measure for SmoothedMaxDivergence {
    type Distance = SmdCurve;

    open spec fn spec_same(&self, other: &Self) -> bool {
        true
    }

    fn same(&self, other: &Self) -> (r: bool) {
        true
    }
}

} // verus!
