//! The mean of a dataset of known size with bounded values.

use vstd::prelude::*;
use crate::domains::{AllDomain, BoundedDomain, Domain, SizedDomain, VectorDomain};
use crate::error::{Error, Fallible};
use crate::fixed::Fixed;
use crate::metrics::{AbsoluteDistance, SymmetricDistance};
use crate::transformations::count_cdf::running_sum;
use crate::transformations::SubstitutionMap;
use crate::traits::Number;
use crate::units::{Function, Transformation};

verus! {

proof fn lemma_running_sum_fails<T: Number>(values: Seq<T>, n: nat, m: nat)
    requires
        n <= m,
        running_sum(values, n) is Err,
    ensures
        running_sum(values, m) == running_sum(values, n),
    decreases m,
{
    if n < m {
        lemma_running_sum_fails(values, n, (m - 1) as nat);
    }
}

/// The sum of the values, which is exact, or the failure of the first sum
/// that is out of range.
pub fn checked_sum(values: &Vec<Fixed>) -> (r: Fallible<Fixed>)
    ensures
        r == running_sum(values@, values@.len()),
{
    let mut sum = Fixed::zero();
    let mut i: usize = 0;
    while i < values.len()
        invariant
            i <= values@.len(),
            running_sum(values@, i as nat) == Ok::<Fixed, Error>(sum),
        decreases values@.len() - i,
    {
        match sum.inf_add(&values[i]) {
            Ok(next) => {
                sum = next;
            },
            Err(e) => {
                proof {
                    lemma_running_sum_fails(values@, (i + 1) as nat, values@.len());
                }
                return Err(e);
            },
        }
        i += 1;
    }
    Ok(sum)
}

/// The mean of the values, taken over `size` of them and rounded down.
pub open spec fn spec_mean(values: Seq<Fixed>, size: Fixed) -> Fallible<Fixed> {
    match running_sum(values, values.len()) {
        Err(e) => Err(e),
        Ok(sum) => sum.spec_neg_inf_div(&size),
    }
}

/// The function that takes the mean of a dataset of `size` records.
#[derive(Clone, Copy, Debug, PartialEq, Eq, Structural)]
pub struct Mean {
    pub size: Fixed,
}

impl Function for Mean {
    type In = Vec<Fixed>;

    type Out = Fixed;

    open spec fn wf(&self) -> bool {
        self.size@ > 0
    }

    open spec fn spec_eval(&self, arg: &Vec<Fixed>, out: &Fallible<Fixed>) -> bool {
        *out == spec_mean(arg@, self.size)
    }

    fn eval(&self, arg: &Vec<Fixed>) -> (r: Fallible<Fixed>) {
        checked_sum(arg)?.neg_inf_div(&self.size)
    }
}

/// What the constructor makes of its parameters: the size as a number, the
/// sensitivity of the mean to one record, `(upper - lower) / size` rounded
/// up, and the relaxation for rounding the mean, one step of the grid.
pub open spec fn spec_mean_parameters(size: usize, bounds: (Fixed, Fixed)) -> Fallible<
    (Fixed, SubstitutionMap),
> {
    if size == 0 || bounds.0@ > bounds.1@ {
        Err(Error::InvalidParameter)
    } else {
        match Fixed::spec_exact_int_cast(size as int) {
            Err(e) => Err(e),
            Ok(size) => match bounds.1.spec_sub(&bounds.0) {
                Err(e) => Err(e),
                Ok(range) => match range.spec_inf_div(&size) {
                    Err(e) => Err(e),
                    Ok(sensitivity) => Ok(
                        (size, SubstitutionMap { sensitivity, relaxation: Fixed { bits: 1 } }),
                    ),
                },
            },
        }
    }
}

/// The mean of datasets of `size` records whose values lie within `bounds`.
///
/// Fails with `InvalidParameter` if the size is zero or the lower bound is
/// above the upper, and with `ArithmeticFailure` if the sensitivity is out of
/// range.
pub fn make_sized_bounded_mean(size: usize, bounds: (Fixed, Fixed)) -> (r: Fallible<
    Transformation<
        SizedDomain<VectorDomain<BoundedDomain<Fixed>>>,
        AllDomain<Fixed>,
        Mean,
        SymmetricDistance,
        AbsoluteDistance,
        SubstitutionMap,
    >,
>)
    ensures
        match spec_mean_parameters(size, bounds) {
            Err(e) => r is Err && r->Err_0 == e,
            Ok((size_, map)) => {
                &&& r is Ok
                &&& r->Ok_0.wf()
                &&& r->Ok_0.input_domain.size == size
                &&& r->Ok_0.input_domain.element_domain.element_domain.lower == bounds.0
                &&& r->Ok_0.input_domain.element_domain.element_domain.upper == bounds.1
                &&& r->Ok_0.function.size == size_
                &&& r->Ok_0.stability_map == map
            },
        },
{
    if size == 0 {
        return Err(Error::InvalidParameter);
    }
    let atom_domain = match BoundedDomain::new_closed(bounds) {
        Some(domain) => domain,
        None => {
            return Err(Error::InvalidParameter);
        },
    };
    let size_ = Fixed::exact_size_cast(size)?;
    let range = bounds.1.inf_sub(&bounds.0)?;
    let sensitivity = range.inf_div(&size_)?;
    proof {
        assert(size * crate::fixed::unit() > 0) by (nonlinear_arith)
            requires
                size > 0,
                crate::fixed::unit() > 0,
        ;
        crate::fixed::lemma_inf_div_monotone(Fixed { bits: 0 }, range, size_);
    }
    Ok(
        Transformation::new(
            SizedDomain::new(VectorDomain::new(atom_domain), size),
            AllDomain::new(),
            Mean { size: size_ },
            SymmetricDistance::default(),
            AbsoluteDistance::default(),
            SubstitutionMap { sensitivity, relaxation: Fixed::step() },
        ),
    )
}

} // verus!
