//! Making a dataset a given number of records long.

use vstd::prelude::*;
use crate::domains::{Domain, SizedDomain, VectorDomain};
use crate::error::{Error, Fallible};
use crate::metrics::IsMetricOrdered;
use crate::transformations::ConstantMap;
use crate::units::{Function, Transformation};

verus! {

/// The first `size` records of the data, with `constant` for each record that
/// is missing.
pub open spec fn resized<T>(data: Seq<T>, size: nat, constant: T) -> Seq<T> {
    Seq::new(
        size,
        |i: int|
            if i < data.len() {
                data[i]
            } else {
                constant
            },
    )
}

/// The function that cuts data off after `size` records, or fills it up to
/// `size` records with `constant`.
///
/// Which records are cut off depends on their order. Under a metric that
/// takes no account of the order, the caller shuffles the data first, so that
/// what is kept is a random draw from it.
pub struct Resize<DA: Domain> {
    pub size: usize,
    pub constant: DA::Carrier,
    pub atom_domain: Ghost<DA>,
}

impl<DA: Domain> Function for Resize<DA> where DA::Carrier: Copy {
    type In = Vec<DA::Carrier>;

    type Out = Vec<DA::Carrier>;

    open spec fn wf(&self) -> bool {
        self.atom_domain@.spec_member(&self.constant)
    }

    open spec fn spec_eval(&self, arg: &Vec<DA::Carrier>, out: &Fallible<Vec<DA::Carrier>>) -> bool {
        *out is Ok && out->Ok_0@ == resized(arg@, self.size as nat, self.constant)
    }

    fn eval(&self, arg: &Vec<DA::Carrier>) -> (r: Fallible<Vec<DA::Carrier>>) {
        let mut data: Vec<DA::Carrier> = Vec::new();
        let mut i: usize = 0;
        while i < self.size
            invariant
                i <= self.size,
                data@ == resized(arg@, i as nat, self.constant),
            decreases self.size - i,
        {
            if i < arg.len() {
                data.push(arg[i]);
            } else {
                data.push(self.constant);
            }
            proof {
                assert(data@ =~= resized(arg@, (i + 1) as nat, self.constant));
            }
            i += 1;
        }
        Ok(data)
    }
}

/// The transformation that makes data `size` records long, for records from
/// `atom_domain`. A record that is added or removed can change the place of
/// one record that is cut off or filled in, so that outputs are at most twice
/// as far apart as inputs.
///
/// Fails with `InvalidParameter` if `constant` is not in `atom_domain`, or if
/// `size` is zero.
pub fn make_resize<DA, MI, MO>(size: usize, atom_domain: DA, constant: DA::Carrier) -> (r: Fallible<
    Transformation<VectorDomain<DA>, SizedDomain<VectorDomain<DA>>, Resize<DA>, MI, MO, ConstantMap>,
>) where DA: Domain + Copy, DA::Carrier: Copy, MI: IsMetricOrdered, MO: IsMetricOrdered
    ensures
        r is Ok <==> atom_domain.spec_member(&constant) && size > 0,
        r is Err ==> r->Err_0 == Error::InvalidParameter,
        r is Ok ==> {
            let t = r->Ok_0;
            &&& t.wf()
            &&& t.input_domain.element_domain == atom_domain
            &&& t.output_domain.element_domain.element_domain == atom_domain
            &&& t.output_domain.size == size
            &&& t.function.size == size
            &&& t.function.constant == constant
            &&& t.stability_map.constant == 2
        },
{
    if !atom_domain.member(&constant) {
        return Err(Error::InvalidParameter);
    }
    if size == 0 {
        return Err(Error::InvalidParameter);
    }
    let function = Resize { size, constant, atom_domain: Ghost(atom_domain) };
    let input_domain = VectorDomain::new(atom_domain);
    let output_domain = SizedDomain::new(VectorDomain::new(atom_domain), size);
    proof {
        assert forall|x: Vec<DA::Carrier>, y: Fallible<Vec<DA::Carrier>>|
            input_domain.spec_member(&x) && #[trigger] function.spec_eval(&x, &y)
                && y is Ok implies output_domain.spec_member(&y->Ok_0) by {
            let out = y->Ok_0;
            assert forall|i: int| 0 <= i < out@.len() implies #[trigger] atom_domain.spec_member(
                &out@[i],
            ) by {
                if i < x@.len() {
                    assert(atom_domain.spec_member(&x@[i]));
                }
            }
        }
    }
    Ok(
        Transformation::new(
            input_domain,
            output_domain,
            function,
            MI::default_metric(),
            MO::default_metric(),
            ConstantMap { constant: 2 },
        ),
    )
}

} // verus!
