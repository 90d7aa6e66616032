//! Drawing discrete Laplace noise from uniformly drawn integers.
//!
//! The library reads no source of randomness. It says what to make of what
//! was read: a [`Walk`] is advanced by one uniformly drawn 32-bit integer at a
//! time, until it is done and holds the noise. An event of probability `p`,
//! for a `p` on the grid, is decided exactly by one such integer `u`: it
//! happens if `u < p * 2^32`.
//!
//! The noise is zero with probability `(1 - alpha) / (1 + alpha)`, where
//! `alpha` stands for `exp(-1 / scale)`, the scale counted in steps of the
//! noise. Otherwise its sign is decided by a
//! fair coin, and its size is the number of steps that a walk takes which
//! stops at each step with probability `1 - alpha`. `alpha` is rounded up
//! and the probability of zero is rounded down, so that there is no less
//! noise than the scale asks for.
//!
//! A walk takes one draw for each step, so that noise of a scale of many steps
//! takes as many draws.
//!
//! Between bounds a walk never needs to go further than from one bound to the
//! other. It then takes that many steps whatever is drawn, so that the number
//! of draws tells nothing about the noise.

use vstd::prelude::*;
use crate::error::{Error, Fallible};
use crate::fixed::{lemma_div_brackets, unit, Fixed, ONE_BITS};

verus! {

/// The raw value of the bound on `alpha` where `exp(1 / scale)` is out of
/// range: `exp(-1 / scale)` is then below `2^-31`.
pub const LEAST_ALPHA_BITS: i64 = 2;

/// An upper bound on `exp(-step / scale)`, for noise of the given scale that
/// is counted in steps of the given size: one over one plus a lower bound on
/// `exp(t) - 1`, for a deficiency `t` of `step / scale`, the quotient rounded
/// up. At a scale of zero it is zero.
pub open spec fn spec_alpha_on(step: Fixed, scale: Fixed) -> Fixed {
    let one = Fixed { bits: ONE_BITS };
    let least = Fixed { bits: LEAST_ALPHA_BITS };
    if scale@ <= 0 || step@ <= 0 {
        Fixed { bits: 0 }
    } else {
        match step.spec_neg_inf_div(&scale) {
            Err(_) => least,
            Ok(rate) => match rate.spec_neg_inf_exp_m1() {
                Err(_) => least,
                Ok(growth) => match one.spec_add(&growth) {
                    Err(_) => least,
                    Ok(whole) => match one.spec_inf_div(&whole) {
                        Err(_) => least,
                        Ok(alpha) => alpha,
                    },
                },
            },
        }
    }
}

/// An upper bound on `exp(-1 / scale)`, for noise that is counted in ones.
pub open spec fn spec_alpha(scale: Fixed) -> Fixed {
    spec_alpha_on(Fixed { bits: ONE_BITS }, scale)
}

/// `alpha` is a probability.
pub proof fn lemma_alpha_range(step: Fixed, scale: Fixed)
    ensures
        0 <= spec_alpha_on(step, scale)@ <= unit(),
{
    let one = Fixed { bits: ONE_BITS };
    if scale@ > 0 && step@ > 0 {
        if let Ok(rate) = step.spec_neg_inf_div(&scale) {
            lemma_div_brackets(step@ * unit(), scale@);
            assert(step@ * unit() >= 0) by (nonlinear_arith)
                requires
                    step@ > 0,
                    unit() > 0,
            ;
            crate::fixed::lemma_div_monotone(0, step@ * unit(), scale@);
            assert(crate::fixed::floor_div(0, scale@) == 0);
            if let Ok(growth) = rate.spec_neg_inf_exp_m1() {
                crate::transcendental::lemma_exp_m1_lower_monotone(rate@, rate@);
                if let Ok(whole) = one.spec_add(&growth) {
                    crate::fixed::lemma_ceil_div_antitone(unit() * unit(), unit(), whole@);
                    vstd::arithmetic::div_mod::lemma_div_multiples_vanish(-unit(), unit());
                    assert(-(unit() * unit()) == unit() * (-unit())) by (nonlinear_arith);
                    assert(unit() * unit() >= 0) by (nonlinear_arith)
                        requires
                            unit() > 0,
                    ;
                }
            }
        }
    }
}

/// `alpha` is no less than `exp(-step / scale)`: where the exponential is in
/// range, `alpha` is at least one over one plus a lower bound on
/// `exp(t) - 1`, for a `t` that is at most `step / scale`.
pub proof fn lemma_alpha_sound(step: Fixed, scale: Fixed)
    requires
        scale@ > 0,
        step@ > 0,
        step.spec_neg_inf_div(&scale) is Ok,
        step.spec_neg_inf_div(&scale)->Ok_0.spec_neg_inf_exp_m1() is Ok,
        (Fixed { bits: ONE_BITS }).spec_add(
            &step.spec_neg_inf_div(&scale)->Ok_0.spec_neg_inf_exp_m1()->Ok_0,
        ) is Ok,
    ensures
        ({
            let rate = step.spec_neg_inf_div(&scale)->Ok_0;
            let growth = crate::transcendental::exp_m1_lower(rate@);
            &&& 0 <= rate@
            &&& rate@ * scale@ <= step@ * unit()
            &&& unit() * unit() <= spec_alpha_on(step, scale)@ * (unit() + growth)
        }),
{
    let one = Fixed { bits: ONE_BITS };
    let rate = step.spec_neg_inf_div(&scale)->Ok_0;
    let growth = rate.spec_neg_inf_exp_m1()->Ok_0;
    let whole = one.spec_add(&growth)->Ok_0;
    lemma_div_brackets(step@ * unit(), scale@);
    assert(step@ * unit() >= 0) by (nonlinear_arith)
        requires
            step@ > 0,
            unit() > 0,
    ;
    assert(unit() * unit() >= 0) by (nonlinear_arith)
        requires
            unit() > 0,
    ;
    crate::fixed::lemma_div_monotone(0, step@ * unit(), scale@);
    assert(crate::fixed::floor_div(0, scale@) == 0);
    crate::transcendental::lemma_exp_m1_lower_monotone(rate@, rate@);
    lemma_div_brackets(unit() * unit(), whole@);
    crate::fixed::lemma_ceil_div_antitone(unit() * unit(), unit(), whole@);
    vstd::arithmetic::div_mod::lemma_div_multiples_vanish(-unit(), unit());
    assert(-(unit() * unit()) == unit() * (-unit())) by (nonlinear_arith);
}

pub fn alpha_on(step: &Fixed, scale: &Fixed) -> (r: Fixed)
    ensures
        r == spec_alpha_on(*step, *scale),
{
    let one = Fixed::one();
    let least = Fixed::from_bits(LEAST_ALPHA_BITS);
    if scale.is_sign_negative() || scale.is_zero() || step.is_sign_negative() || step.is_zero() {
        return Fixed::zero();
    }
    let rate = match step.neg_inf_div(scale) {
        Ok(rate) => rate,
        Err(_) => {
            return least;
        },
    };
    let growth = match rate.neg_inf_exp_m1() {
        Ok(growth) => growth,
        Err(_) => {
            return least;
        },
    };
    let whole = match one.inf_add(&growth) {
        Ok(whole) => whole,
        Err(_) => {
            return least;
        },
    };
    match one.inf_div(&whole) {
        Ok(alpha) => alpha,
        Err(_) => least,
    }
}

pub fn alpha(scale: &Fixed) -> (r: Fixed)
    ensures
        r == spec_alpha(*scale),
{
    alpha_on(&Fixed::one(), scale)
}

/// The probability that a step of the walk is the last: `1 - alpha`.
pub open spec fn spec_stop(alpha: Fixed) -> Fixed {
    Fixed { bits: (unit() - alpha@) as i64 }
}

/// The probability that the noise is zero: `(1 - alpha) / (1 + alpha)`,
/// rounded down.
pub open spec fn spec_stay(alpha: Fixed) -> Fixed {
    Fixed { bits: crate::fixed::floor_div((unit() - alpha@) * unit(), unit() + alpha@) as i64 }
}

/// How far a walk between the bounds can need to go.
pub open spec fn spec_span(bounds: Option<(i64, i64)>) -> Option<u64> {
    match bounds {
        Some((lower, upper)) => Some((upper - lower) as u64),
        None => None,
    }
}

/// What decides a walk: the probability `stay` that the noise is zero, the
/// probability `stop` that a step is the last, and between bounds the number
/// `span` of steps that the walk takes.
#[derive(Clone, Copy, Debug, PartialEq, Eq, Structural)]
pub struct LaplaceSampler {
    pub stay: Fixed,
    pub stop: Fixed,
    pub span: Option<u64>,
}

/// How far a walk has come.
#[derive(Clone, Copy, Debug, PartialEq, Eq, Structural)]
pub enum Walk {
    /// Nothing was drawn yet. The first draw decides whether the noise is
    /// zero.
    Start,
    /// The next draw decides the sign.
    Sign { stay: bool },
    /// The walk is at `count` steps and goes on, unless it has `stopped`.
    /// Between bounds, `left` steps are still to be taken.
    Steps { stay: bool, negative: bool, count: u64, stopped: bool, left: u64 },
    /// The walk is done.
    Done { noise: i64 },
}

/// The noise of a walk that is zero, or `count` steps to one side.
pub open spec fn signed_count(stay: bool, negative: bool, count: u64) -> i64 {
    let size = if count > i64::MAX {
        i64::MAX
    } else {
        count as i64
    };
    if stay {
        0
    } else if negative {
        (-size) as i64
    } else {
        size
    }
}

fn signed_count_of(stay: bool, negative: bool, count: u64) -> (r: i64)
    ensures
        r == signed_count(stay, negative, count),
{
    let size: i64 = if count > 0x7fff_ffff_ffff_ffff {
        0x7fff_ffff_ffff_ffff
    } else {
        count as i64
    };
    if stay {
        0
    } else if negative {
        -size
    } else {
        size
    }
}

impl LaplaceSampler {
    /// The sampler for noise of the given scale that is counted in steps of
    /// the given size, between the given bounds.
    pub open spec fn spec_on_grid(step: Fixed, scale: Fixed, bounds: Option<(i64, i64)>) -> Fallible<
        LaplaceSampler,
    > {
        if scale@ < 0 || step@ <= 0 || (bounds is Some && bounds->Some_0.0 > bounds->Some_0.1) {
            Err(Error::InvalidParameter)
        } else if spec_alpha_on(step, scale)@ >= unit() {
            Err(Error::ArithmeticFailure)
        } else {
            Ok(
                LaplaceSampler {
                    stay: spec_stay(spec_alpha_on(step, scale)),
                    stop: spec_stop(spec_alpha_on(step, scale)),
                    span: spec_span(bounds),
                },
            )
        }
    }

    /// The sampler for noise of the given scale that is counted in ones,
    /// between the given bounds.
    pub open spec fn spec_new(scale: Fixed, bounds: Option<(i64, i64)>) -> Fallible<LaplaceSampler> {
        Self::spec_on_grid(Fixed { bits: ONE_BITS }, scale, bounds)
    }

    /// Fails as [`LaplaceSampler::on_grid`] does for a step of one.
    pub fn new(scale: Fixed, bounds: Option<(i64, i64)>) -> (r: Fallible<LaplaceSampler>)
        ensures
            r == Self::spec_new(scale, bounds),
    {
        Self::on_grid(Fixed::one(), scale, bounds)
    }

    /// Fails with `InvalidParameter` if the scale is negative, the step is
    /// not positive, or the lower bound is above the upper. Fails with
    /// `ArithmeticFailure` if the scale is so many steps that `alpha` is one
    /// on the grid of the numbers: a walk would then never stop.
    pub fn on_grid(step: Fixed, scale: Fixed, bounds: Option<(i64, i64)>) -> (r: Fallible<
        LaplaceSampler,
    >)
        ensures
            r == Self::spec_on_grid(step, scale, bounds),
    {
        if scale.is_sign_negative() || step.is_sign_negative() || step.is_zero() {
            return Err(Error::InvalidParameter);
        }
        let span = match bounds {
            Some((lower, upper)) => {
                if lower > upper {
                    return Err(Error::InvalidParameter);
                }
                let wide: i128 = upper as i128 - lower as i128;
                Some(wide as u64)
            },
            None => None,
        };
        let one = Fixed::one();
        let alpha = alpha_on(&step, &scale);
        proof {
            lemma_alpha_range(step, scale);
            let above = (unit() - alpha@) * unit();
            let whole = unit() + alpha@;
            assert(0 <= above <= unit() * unit()) by (nonlinear_arith)
                requires
                    above == (unit() - alpha@) * unit(),
                    0 <= alpha@ <= unit(),
                    unit() > 0,
            ;
            assert(unit() * unit() == 0x1_0000_0000_0000_0000) by (nonlinear_arith)
                requires
                    unit() == 0x1_0000_0000,
            ;
            lemma_div_brackets(above, whole);
            crate::fixed::lemma_div_monotone(0, above, whole);
            assert(crate::fixed::floor_div(0, whole) == 0);
            assert(crate::fixed::floor_div(above, whole) <= unit()) by (nonlinear_arith)
                requires
                    crate::fixed::floor_div(above, whole) * whole <= above,
                    above <= unit() * unit(),
                    whole >= unit(),
                    unit() > 0,
                    crate::fixed::floor_div(above, whole) >= 0,
            ;
        }
        if !alpha.lt(&one) {
            return Err(Error::ArithmeticFailure);
        }
        let stop = match one.inf_sub(&alpha) {
            Ok(stop) => stop,
            Err(_) => Fixed::zero(),
        };
        let whole = match one.inf_add(&alpha) {
            Ok(whole) => whole,
            Err(_) => one,
        };
        let stay = match stop.neg_inf_div(&whole) {
            Ok(stay) => stay,
            Err(_) => Fixed::zero(),
        };
        Ok(LaplaceSampler { stay, stop, span })
    }

    /// The walk after one more draw.
    pub open spec fn spec_advance(&self, walk: Walk, draw: u32) -> Walk {
        match walk {
            Walk::Start => {
                let stay = draw < self.stay@;
                if self.span is None && stay {
                    Walk::Done { noise: 0 }
                } else {
                    Walk::Sign { stay }
                }
            },
            Walk::Sign { stay } => {
                let negative = draw >= 0x8000_0000;
                match self.span {
                    Some(span) => if span == 0 {
                        Walk::Done { noise: 0 }
                    } else {
                        Walk::Steps { stay, negative, count: 1, stopped: false, left: span }
                    },
                    None => Walk::Steps { stay, negative, count: 1, stopped: false, left: 0 },
                }
            },
            Walk::Steps { stay, negative, count, stopped, left } => {
                let stopped = stopped || draw < self.stop@;
                let count = if stopped || count == u64::MAX {
                    count
                } else {
                    (count + 1) as u64
                };
                let done = Walk::Done { noise: signed_count(stay, negative, count) };
                if self.span is Some {
                    if left <= 1 {
                        done
                    } else {
                        Walk::Steps { stay, negative, count, stopped, left: (left - 1) as u64 }
                    }
                } else if stopped {
                    done
                } else {
                    Walk::Steps { stay, negative, count, stopped, left }
                }
            },
            Walk::Done { noise } => Walk::Done { noise },
        }
    }

    /// Advances a walk by one uniformly drawn integer.
    pub fn advance(&self, walk: Walk, draw: u32) -> (r: Walk)
        ensures
            r == self.spec_advance(walk, draw),
    {
        match walk {
            Walk::Start => {
                let stay = (draw as i64) < self.stay.to_bits();
                if self.span.is_none() && stay {
                    Walk::Done { noise: 0 }
                } else {
                    Walk::Sign { stay }
                }
            },
            Walk::Sign { stay } => {
                let negative = draw >= 0x8000_0000;
                match self.span {
                    Some(span) => if span == 0 {
                        Walk::Done { noise: 0 }
                    } else {
                        Walk::Steps { stay, negative, count: 1, stopped: false, left: span }
                    },
                    None => Walk::Steps { stay, negative, count: 1, stopped: false, left: 0 },
                }
            },
            Walk::Steps { stay, negative, count, stopped, left } => {
                let stopped = stopped || (draw as i64) < self.stop.to_bits();
                let count = if stopped || count == u64::MAX {
                    count
                } else {
                    count + 1
                };
                if self.span.is_some() {
                    if left <= 1 {
                        Walk::Done { noise: signed_count_of(stay, negative, count) }
                    } else {
                        Walk::Steps { stay, negative, count, stopped, left: left - 1 }
                    }
                } else if stopped {
                    Walk::Done { noise: signed_count_of(stay, negative, count) }
                } else {
                    Walk::Steps { stay, negative, count, stopped, left }
                }
            },
            Walk::Done { noise } => Walk::Done { noise },
        }
    }

    /// The walk after all of the draws.
    pub open spec fn spec_run(&self, walk: Walk, draws: Seq<u32>) -> Walk
        decreases draws.len(),
    {
        if draws.len() == 0 {
            walk
        } else {
            self.spec_advance(self.spec_run(walk, draws.drop_last()), draws.last())
        }
    }

    /// Whether a walk can only end in no noise.
    pub open spec fn is_quiet(walk: Walk) -> bool {
        match walk {
            Walk::Start => true,
            Walk::Sign { stay } => stay,
            Walk::Steps { stay, negative, count, stopped, left } => stay,
            Walk::Done { noise } => noise == 0,
        }
    }

    /// Noise of scale zero is zero: whatever is drawn, the walk ends in no
    /// noise.
    pub proof fn lemma_no_noise_at_scale_zero(bounds: Option<(i64, i64)>, draws: Seq<u32>)
        requires
            Self::spec_new(Fixed { bits: 0 }, bounds) is Ok,
        ensures
            Self::is_quiet(Self::spec_new(Fixed { bits: 0 }, bounds)->Ok_0.spec_run(Walk::Start, draws)),
        decreases draws.len(),
    {
        let sampler = Self::spec_new(Fixed { bits: 0 }, bounds)->Ok_0;
        if draws.len() > 0 {
            Self::lemma_no_noise_at_scale_zero(bounds, draws.drop_last());
            assert(spec_alpha_on(Fixed { bits: ONE_BITS }, Fixed { bits: 0 })@ == 0);
            assert((unit() - 0) * unit() == unit() * unit()) by (nonlinear_arith);
            vstd::arithmetic::div_mod::lemma_div_multiples_vanish(unit(), unit());
            assert(sampler.stay@ == unit());
        }
    }

    /// Between bounds a walk takes as many draws as the bounds are apart, and
    /// two more, whatever is drawn.
    pub proof fn lemma_bounded_walk_length(&self, draws: Seq<u32>)
        requires
            self.span is Some,
            self.span->Some_0 >= 1,
        ensures
            draws.len() == 0 ==> self.spec_run(Walk::Start, draws) is Start,
            draws.len() == 1 ==> self.spec_run(Walk::Start, draws) is Sign,
            2 <= draws.len() < self.span->Some_0 + 2 ==> self.spec_run(Walk::Start, draws) is Steps
                && self.spec_run(Walk::Start, draws)->Steps_left == self.span->Some_0 + 2
                - draws.len(),
            draws.len() >= self.span->Some_0 + 2 ==> self.spec_run(Walk::Start, draws) is Done,
        decreases draws.len(),
    {
        if draws.len() > 0 {
            self.lemma_bounded_walk_length(draws.drop_last());
        }
    }
}

} // verus!
