//! Measurements: the mechanisms that release a noisy answer.

use vstd::prelude::*;
use vstd::arithmetic::power2::{lemma2_to64, lemma2_to64_rest, lemma_pow2_unfold, pow2};
use crate::error::{Error, Fallible};
use crate::fixed::{checked, floor_div, lemma_div_brackets, Fixed};
use crate::samplers::LaplaceSampler;

pub mod discrete_gaussian;
pub mod discrete_laplace;
pub mod laplace;
pub mod ptr;

verus! {

/// The exponent of the finest grid that a fixed-point number lies on: the
/// grid of all of them, with a step of `2^-32`.
pub const FINEST_GRID: i32 = -32;

/// The exponent that is used when `k` is asked for: `k` itself, but never
/// below the finest grid, and the finest grid when nothing is asked for.
pub open spec fn spec_grid_exponent(k: Option<i32>) -> i32 {
    match k {
        Some(k) => if k > FINEST_GRID {
            k
        } else {
            FINEST_GRID
        },
        None => FINEST_GRID,
    }
}

/// The raw value of the step `2^k` of the grid with exponent `k`.
pub open spec fn spec_grid_step(k: i32) -> int {
    pow2((k - FINEST_GRID) as nat) as int
}

/// The exponent `k` of the grid on which noise is sampled, and the relaxation
/// that the grid costs: rounding a number to the grid can move two numbers
/// apart by up to one step of the grid, less one step of the grid that they
/// were on before.
pub open spec fn spec_discretization_consts(k: Option<i32>) -> Fallible<(i32, Fixed)> {
    let exponent = spec_grid_exponent(k);
    if exponent >= 31 {
        Err(Error::ArithmeticFailure)
    } else {
        Ok((exponent, Fixed { bits: (spec_grid_step(exponent) - 1) as i64 }))
    }
}

/// The grid for the exponent `k` that was asked for: its exponent and its
/// relaxation. By default noise is sampled on the finest grid, at no
/// relaxation. Fails if the step of the grid is out of range.
pub fn get_discretization_consts(k: Option<i32>) -> (r: Fallible<(i32, Fixed)>)
    ensures
        r == spec_discretization_consts(k),
        r is Ok ==> 0 <= r->Ok_0.1@ < 0x4000_0000_0000_0000 && r->Ok_0.1@ + 1 == spec_grid_step(
            r->Ok_0.0,
        ),
{
    let exponent = match k {
        Some(k) => if k > FINEST_GRID {
            k
        } else {
            FINEST_GRID
        },
        None => FINEST_GRID,
    };
    if exponent >= 31 {
        return Err(Error::ArithmeticFailure);
    }
    let doublings: i32 = exponent - FINEST_GRID;
    let mut step: i64 = 1;
    let mut i: i32 = 0;
    proof {
        lemma2_to64();
    }
    while i < doublings
        invariant
            0 <= i <= doublings <= 62,
            step == pow2(i as nat),
        decreases doublings - i,
    {
        proof {
            lemma_pow2_unfold((i + 1) as nat);
            lemma_pow2_bound((i + 1) as nat);
        }
        step = step * 2;
        i = i + 1;
    }
    proof {
        lemma_pow2_bound(doublings as nat);
    }
    Ok((exponent, Fixed::from_bits(step - 1)))
}

/// The step of a grid with the given relaxation.
pub fn grid_step(relaxation: Fixed) -> (r: Fixed)
    requires
        0 <= relaxation@ < i64::MAX,
    ensures
        r@ == relaxation@ + 1,
{
    Fixed::from_bits(relaxation.to_bits() + 1)
}

/// The multiple of `step` nearest to `v`; halfway between two, the larger.
pub open spec fn grid_round(v: int, step: int) -> int {
    floor_div(v + step / 2, step) * step
}

/// The raw value of a count after rounding to the grid and adding `noise`
/// steps of the grid.
pub open spec fn noisy_count(count: Fixed, noise: i64, step: Fixed) -> int {
    grid_round(count@, step@) + noise * step@
}

/// Rounds `count` to the grid and adds `noise` steps of the grid.
pub fn noisy_count_of(count: Fixed, noise: i64, step: Fixed) -> (r: Fallible<Fixed>)
    requires
        step@ > 0,
    ensures
        r == checked(noisy_count(count, noise, step)),
{
    let wide_step: i128 = step.bits as i128;
    let half: i128 = match wide_step.checked_div_euclid(2) {
        Some(half) => half,
        None => 0,
    };
    let shifted: i128 = count.bits as i128 + half;
    proof {
        lemma_div_brackets(shifted as int, wide_step as int);
    }
    let steps: i128 = match shifted.checked_div_euclid(wide_step) {
        Some(steps) => steps,
        None => 0,
    };
    assert(steps == floor_div(shifted as int, wide_step as int));
    assert(-0x2_0000_0000_0000_0000 <= steps * wide_step <= 0x2_0000_0000_0000_0000)
        by (nonlinear_arith)
        requires
            steps * wide_step <= shifted < (steps + 1) * wide_step,
            0 < wide_step <= 0x8000_0000_0000_0000,
            -0x8000_0000_0000_0000 <= shifted <= 0x1_0000_0000_0000_0000,
    ;
    assert(-0x4000_0000_0000_0000_0000_0000_0000_0000 <= noise * wide_step
        <= 0x4000_0000_0000_0000_0000_0000_0000_0000) by (nonlinear_arith)
        requires
            -0x8000_0000_0000_0000 <= noise <= 0x8000_0000_0000_0000,
            0 < wide_step <= 0x8000_0000_0000_0000,
    ;
    let total: i128 = steps * wide_step + (noise as i128) * wide_step;
    if total < -0x8000_0000_0000_0000 || total > 0x7fff_ffff_ffff_ffff {
        Err(Error::ArithmeticFailure)
    } else {
        Ok(Fixed { bits: total as i64 })
    }
}

/// The sampler of the draws for noise of the given scale on a grid with the
/// given step: the draws count steps of the grid.
pub open spec fn spec_grid_sampler(scale: Fixed, step: Fixed) -> Fallible<LaplaceSampler> {
    LaplaceSampler::spec_on_grid(step, scale, None)
}

pub fn grid_sampler(scale: &Fixed, step: &Fixed) -> (r: Fallible<LaplaceSampler>)
    ensures
        r == spec_grid_sampler(*scale, *step),
{
    LaplaceSampler::on_grid(*step, *scale, None)
}

proof fn lemma_pow2_bound(e: nat)
    requires
        e <= 62,
    ensures
        0 < pow2(e) <= 0x4000_0000_0000_0000,
{
    lemma2_to64();
    lemma2_to64_rest();
    if e < 62 {
        vstd::arithmetic::power2::lemma_pow2_strictly_increases(e, 62);
    }
    vstd::arithmetic::power2::lemma_pow2_pos(e);
}

} // verus!
