//! The sum of the squared deviations from the mean, for a dataset of known
//! size with bounded values.

use vstd::prelude::*;
use crate::domains::{AllDomain, BoundedDomain, Domain, SizedDomain, VectorDomain};
use crate::error::{Error, Fallible};
use crate::fixed::{lemma_inf_div_monotone, lemma_inf_mul_monotone, unit, Fixed};
use crate::metrics::{AbsoluteDistance, SymmetricDistance};
use crate::transformations::mean::{checked_sum, spec_mean};
use crate::transformations::SubstitutionMap;
use crate::units::{Function, Transformation};

verus! {

/// The square of the deviation of `value` from `mean`, rounded down.
pub open spec fn spec_squared_deviation(value: Fixed, mean: Fixed) -> Fallible<Fixed> {
    match value.spec_sub(&mean) {
        Err(e) => Err(e),
        Ok(deviation) => deviation.spec_neg_inf_mul(&deviation),
    }
}

/// The sum of the squared deviations of the first `n` values from `mean`, or
/// the first failure met on the way.
pub open spec fn spec_squares(values: Seq<Fixed>, mean: Fixed, n: nat) -> Fallible<Fixed>
    decreases n,
{
    if n == 0 {
        Ok(Fixed { bits: 0 })
    } else {
        match spec_squares(values, mean, (n - 1) as nat) {
            Err(e) => Err(e),
            Ok(sum) => match spec_squared_deviation(values[n - 1], mean) {
                Err(e) => Err(e),
                Ok(square) => sum.spec_add(&square),
            },
        }
    }
}

proof fn lemma_squares_fail(values: Seq<Fixed>, mean: Fixed, n: nat, m: nat)
    requires
        n <= m,
        spec_squares(values, mean, n) is Err,
    ensures
        spec_squares(values, mean, m) == spec_squares(values, mean, n),
    decreases m,
{
    if n < m {
        lemma_squares_fail(values, mean, n, (m - 1) as nat);
    }
}

/// The sum of the squared deviations of the values from their mean over
/// `size` records.
pub open spec fn spec_sum_of_squared_deviations(values: Seq<Fixed>, size: Fixed) -> Fallible<
    Fixed,
> {
    match spec_mean(values, size) {
        Err(e) => Err(e),
        Ok(mean) => spec_squares(values, mean, values.len()),
    }
}

/// The function that sums the squared deviations of a dataset of `size`
/// records.
#[derive(Clone, Copy, Debug, PartialEq, Eq, Structural)]
pub struct SumOfSquaredDeviations {
    pub size: Fixed,
}

impl Function for SumOfSquaredDeviations {
    type In = Vec<Fixed>;

    type Out = Fixed;

    open spec fn wf(&self) -> bool {
        self.size@ > 0
    }

    open spec fn spec_eval(&self, arg: &Vec<Fixed>, out: &Fallible<Fixed>) -> bool {
        *out == spec_sum_of_squared_deviations(arg@, self.size)
    }

    fn eval(&self, arg: &Vec<Fixed>) -> (r: Fallible<Fixed>) {
        let mean = checked_sum(arg)?.neg_inf_div(&self.size)?;
        let mut sum = Fixed::zero();
        let mut i: usize = 0;
        while i < arg.len()
            invariant
                i <= arg@.len(),
                spec_mean(arg@, self.size) == Ok::<Fixed, Error>(mean),
                spec_squares(arg@, mean, i as nat) == Ok::<Fixed, Error>(sum),
            decreases arg@.len() - i,
        {
            let next = match arg[i].inf_sub(&mean) {
                Err(e) => Err(e),
                Ok(deviation) => match deviation.neg_inf_mul(&deviation) {
                    Err(e) => Err(e),
                    Ok(square) => sum.inf_add(&square),
                },
            };
            match next {
                Ok(next) => {
                    sum = next;
                },
                Err(e) => {
                    proof {
                        lemma_squares_fail(arg@, mean, (i + 1) as nat, arg@.len());
                    }
                    return Err(e);
                },
            }
            i += 1;
        }
        Ok(sum)
    }
}

/// The sensitivity of the sum of squared deviations to one record, for
/// `size` records within a range of `range`: `range^2 * (size - 1) / size`,
/// every step rounded up.
pub open spec fn spec_sensitivity(range: Fixed, size: Fixed) -> Fallible<Fixed> {
    match range.spec_inf_mul(&range) {
        Err(e) => Err(e),
        Ok(square) => match size.spec_sub(&Fixed { bits: crate::fixed::ONE_BITS }) {
            Err(e) => Err(e),
            Ok(others) => match square.spec_inf_mul(&others) {
                Err(e) => Err(e),
                Ok(product) => product.spec_inf_div(&size),
            },
        },
    }
}

/// The relaxation for rounding: each of the `size` squares is rounded down by
/// less than one step of the grid, and rounding the mean adds less than one
/// step to their sum.
pub open spec fn spec_relaxation(size: usize) -> Fixed {
    Fixed { bits: (size + 1) as i64 }
}

/// What the constructor makes of its parameters: the size as a number and
/// the stability map. The bounds are first widened by one step of the grid
/// for the rounding of the mean. The parameters are refused if the sum of
/// `size` values within the bounds, or of as many squares within the range,
/// could leave the range of the numbers.
pub open spec fn spec_deviation_parameters(size: usize, bounds: (Fixed, Fixed)) -> Fallible<
    (Fixed, SubstitutionMap),
> {
    let step = Fixed { bits: 1 };
    if size == 0 || bounds.0@ > bounds.1@ {
        Err(Error::InvalidParameter)
    } else {
        match Fixed::spec_exact_int_cast(size as int) {
            Err(e) => Err(e),
            Ok(size_) => match bounds.0.spec_sub(&step) {
                Err(e) => Err(e),
                Ok(lower) => match bounds.1.spec_add(&step) {
                    Err(e) => Err(e),
                    Ok(upper) => match upper.spec_sub(&lower) {
                        Err(e) => Err(e),
                        Ok(range) => match spec_sensitivity(range, size_) {
                            Err(e) => Err(e),
                            Ok(sensitivity) => if lower.spec_inf_mul(&size_) is Err
                                || upper.spec_inf_mul(&size_) is Err || range.spec_inf_mul(
                                &range,
                            )->Ok_0.spec_inf_mul(&size_) is Err {
                                Err(Error::ArithmeticFailure)
                            } else {
                                Ok(
                                    (
                                        size_,
                                        SubstitutionMap {
                                            sensitivity,
                                            relaxation: spec_relaxation(size),
                                        },
                                    ),
                                )
                            },
                        },
                    },
                },
            },
        }
    }
}

fn sensitivity_of(range: &Fixed, size: &Fixed) -> (r: Fallible<Fixed>)
    ensures
        r == spec_sensitivity(*range, *size),
{
    range.inf_mul(range)?.inf_mul(&size.inf_sub(&Fixed::one())?)?.inf_div(size)
}

/// The sum of the squared deviations from the mean, for datasets of `size`
/// records whose values lie within `bounds`.
///
/// Fails with `InvalidParameter` if the size is zero or the lower bound is
/// above the upper, and with `ArithmeticFailure` if a bound computed from
/// the parameters is out of range.
pub fn make_sized_bounded_sum_of_squared_deviations(size: usize, bounds: (Fixed, Fixed)) -> (r:
    Fallible<
        Transformation<
            SizedDomain<VectorDomain<BoundedDomain<Fixed>>>,
            AllDomain<Fixed>,
            SumOfSquaredDeviations,
            SymmetricDistance,
            AbsoluteDistance,
            SubstitutionMap,
        >,
    >)
    ensures
        match spec_deviation_parameters(size, bounds) {
            Err(e) => r is Err && r->Err_0 == e,
            Ok((size_, map)) => {
                &&& r is Ok
                &&& r->Ok_0.wf()
                &&& r->Ok_0.input_domain.size == size
                &&& r->Ok_0.input_domain.element_domain.element_domain.lower == bounds.0
                &&& r->Ok_0.input_domain.element_domain.element_domain.upper == bounds.1
                &&& r->Ok_0.function.size == size_
                &&& r->Ok_0.stability_map == map
            },
        },
{
    if size == 0 {
        return Err(Error::InvalidParameter);
    }
    let atom_domain = match BoundedDomain::new_closed(bounds) {
        Some(domain) => domain,
        None => {
            return Err(Error::InvalidParameter);
        },
    };
    let size_ = Fixed::exact_size_cast(size)?;
    let step = Fixed::step();
    let lower = bounds.0.neg_inf_sub(&step)?;
    let upper = bounds.1.inf_add(&step)?;
    let range = upper.inf_sub(&lower)?;
    let sensitivity = sensitivity_of(&range, &size_)?;
    let relaxation = Fixed::from_bits((size + 1) as i64);
    if lower.inf_mul(&size_).is_err() {
        return Err(Error::ArithmeticFailure);
    }
    if upper.inf_mul(&size_).is_err() {
        return Err(Error::ArithmeticFailure);
    }
    let square = range.inf_mul(&range)?;
    if square.inf_mul(&size_).is_err() {
        return Err(Error::ArithmeticFailure);
    }
    proof {
        assert(size * unit() >= unit()) by (nonlinear_arith)
            requires
                size > 0,
                unit() > 0,
        ;
        let zero = Fixed { bits: 0 };
        lemma_inf_mul_monotone(zero, range, range);
        let others = size_.spec_sub(&Fixed { bits: crate::fixed::ONE_BITS })->Ok_0;
        lemma_inf_mul_monotone(zero, square, others);
        let product = square.spec_inf_mul(&others)->Ok_0;
        lemma_inf_div_monotone(zero, product, size_);
    }
    Ok(
        Transformation::new(
            SizedDomain::new(VectorDomain::new(atom_domain), size),
            AllDomain::new(),
            SumOfSquaredDeviations { size: size_ },
            SymmetricDistance::default(),
            AbsoluteDistance::default(),
            SubstitutionMap { sensitivity, relaxation },
        ),
    )
}

} // verus!
