//! Propose-test-release on counts: noisy counts are released only where they
//! clear a threshold, so that the keys of rare categories stay hidden.
//!
//! The privacy map takes for granted that the distance between two inputs
//! bounds the number of records in which they differ, as it does for counts
//! under the L1 distance. Nothing here can check that: it is for the caller to
//! chain this measurement only after a transformation of which it holds.

use vstd::prelude::*;
use crate::domains::{distinct_keys, AllDomain, Domain, MapDomain};
use crate::error::{Error, Fallible};
use crate::fixed::{in_range, Fixed};
use crate::measurements::discrete_laplace::effective;
use crate::measurements::{
    get_discretization_consts,
    grid_sampler,
    spec_grid_sampler,
    grid_step,
    noisy_count,
    noisy_count_of,
    spec_discretization_consts,
    spec_grid_step,
};
use crate::measures::{
    lemma_loss_ratio_monotone,
    lemma_min_threshold_monotone,
    SmdCurve,
    SmoothedMaxDivergence,
};
use crate::metrics::L1Distance;
use crate::samplers::LaplaceSampler;
use crate::traits::{Atom, Distance};
use crate::units::{BoundMap, Measurement, Mechanism};

verus! {

/// The draws that count for `len` entries: the draws themselves, or zeros
/// where the mechanism is silent because its scale is zero.
pub open spec fn effective_draws(noise: Seq<i64>, silent: bool, len: nat) -> Seq<i64> {
    Seq::new(len, |i: int| effective(noise[i], silent))
}

/// The entries with each count replaced by its noisy count.
pub open spec fn noisy_counts<K>(entries: Seq<(K, Fixed)>, noise: Seq<i64>, step: Fixed) -> Seq<
    (K, Fixed),
> {
    Seq::new(
        entries.len(),
        |i: int| (entries[i].0, Fixed { bits: noisy_count(entries[i].1, noise[i], step) as i64 }),
    )
}

/// Whether every noisy count is in range.
pub open spec fn counts_in_range<K>(entries: Seq<(K, Fixed)>, noise: Seq<i64>, step: Fixed) -> bool {
    forall|i: int|
        0 <= i < entries.len() ==> in_range(#[trigger] noisy_count(entries[i].1, noise[i], step))
}

/// The entries whose count is at least `threshold`, in their order.
pub open spec fn above_threshold<K>(counts: Seq<(K, Fixed)>, threshold: Fixed) -> Seq<(K, Fixed)>
    decreases counts.len(),
{
    if counts.len() == 0 {
        Seq::empty()
    } else {
        let rest = above_threshold(counts.drop_last(), threshold);
        if counts.last().1@ >= threshold@ {
            rest.push(counts.last())
        } else {
            rest
        }
    }
}

/// What is kept is part of what there was, and lists no key twice if that did
/// not.
pub proof fn lemma_above_threshold_keys<K: Atom>(counts: Seq<(K, Fixed)>, threshold: Fixed)
    ensures
        forall|i: int|
            0 <= i < above_threshold(counts, threshold).len() ==> counts.contains(
                #[trigger] above_threshold(counts, threshold)[i],
            ) && above_threshold(counts, threshold)[i].1@ >= threshold@,
        distinct_keys(counts) ==> distinct_keys(above_threshold(counts, threshold)),
    decreases counts.len(),
{
    if counts.len() > 0 {
        let front = counts.drop_last();
        let rest = above_threshold(front, threshold);
        lemma_above_threshold_keys(front, threshold);
        let kept = above_threshold(counts, threshold);
        assert forall|i: int| 0 <= i < kept.len() implies counts.contains(#[trigger] kept[i])
            && kept[i].1@ >= threshold@ by {
            if i < rest.len() {
                assert(front.contains(rest[i]));
                let j = choose|j: int| 0 <= j < front.len() && front[j] == rest[i];
                assert(counts[j] == rest[i]);
            } else {
                assert(counts[counts.len() - 1] == kept[i]);
            }
        }
        if distinct_keys(counts) {
            assert(distinct_keys(front)) by {
                assert forall|i: int, j: int| 0 <= i < j < front.len() implies (#[trigger] front[i]).0.key()
                    != (#[trigger] front[j]).0.key() by {
                    assert(front[i] == counts[i] && front[j] == counts[j]);
                }
            }
            assert forall|i: int, j: int| 0 <= i < j < kept.len() implies (#[trigger] kept[i]).0.key()
                != (#[trigger] kept[j]).0.key() by {
                if j == rest.len() {
                    assert(front.contains(rest[i]));
                    let a = choose|a: int| 0 <= a < front.len() && front[a] == rest[i];
                    assert(counts[a] == kept[i]);
                    assert(counts[counts.len() - 1] == kept[j]);
                }
            }
        }
    }
}

/// The function of the mechanism. To each count it adds `noise` steps of the
/// grid, where `noise` is drawn for each entry independently from the
/// discrete Laplace distribution of scale `scale / step`; then it drops every
/// entry whose noisy count is under `threshold`. At a scale of zero nothing
/// is added.
pub struct CountRelease<K> {
    pub scale: Fixed,
    pub threshold: Fixed,
    pub k: i32,
    pub step: Fixed,
    pub marker: std::marker::PhantomData<K>,
}

impl<K> CountRelease<K> {
    /// The sampler of the draws of this mechanism.
    pub fn sampler(&self) -> (r: Fallible<LaplaceSampler>)
        ensures
            r == spec_grid_sampler(self.scale, self.step),
    {
        grid_sampler(&self.scale, &self.step)
    }
}

impl<K: Atom> Mechanism for CountRelease<K> {
    type In = Vec<(K, Fixed)>;

    type Noise = Vec<i64>;

    type Out = Vec<(K, Fixed)>;

    open spec fn wf(&self) -> bool {
        self.step@ > 0
    }

    /// One draw is needed for each entry, unless the scale is zero: then
    /// nothing is added, and no draw is needed. If any noisy count is out of
    /// range, nothing is released.
    open spec fn spec_release(
        &self,
        arg: &Vec<(K, Fixed)>,
        noise: &Vec<i64>,
        out: &Fallible<Vec<(K, Fixed)>>,
    ) -> bool {
        let silent = self.scale@ == 0;
        let draws = effective_draws(noise@, silent, arg@.len());
        if !silent && arg@.len() != noise@.len() {
            *out == Err::<Vec<(K, Fixed)>, Error>(Error::FailedFunction)
        } else if !counts_in_range(arg@, draws, self.step) {
            *out == Err::<Vec<(K, Fixed)>, Error>(Error::ArithmeticFailure)
        } else {
            &&& *out is Ok
            &&& out->Ok_0@ == above_threshold(noisy_counts(arg@, draws, self.step), self.threshold)
        }
    }

    fn release(&self, arg: &Vec<(K, Fixed)>, noise: &Vec<i64>) -> (r: Fallible<Vec<(K, Fixed)>>) {
        let silent = self.scale.is_zero();
        if !silent && arg.len() != noise.len() {
            return Err(Error::FailedFunction);
        }
        let ghost draws = effective_draws(noise@, silent, arg@.len());
        let ghost noisy = noisy_counts(arg@, draws, self.step);
        let mut released: Vec<(K, Fixed)> = Vec::new();
        let mut i: usize = 0;
        while i < arg.len()
            invariant
                i <= arg@.len(),
                silent == (self.scale@ == 0),
                silent || arg@.len() == noise@.len(),
                self.step@ > 0,
                draws == effective_draws(noise@, silent, arg@.len()),
                noisy == noisy_counts(arg@, draws, self.step),
                forall|j: int|
                    0 <= j < i ==> in_range(#[trigger] noisy_count(arg@[j].1, draws[j], self.step)),
                released@ == above_threshold(noisy.take(i as int), self.threshold),
            decreases arg@.len() - i,
        {
            let draw = if silent {
                0
            } else {
                noise[i]
            };
            assert(draws[i as int] == draw);
            let count = match noisy_count_of(arg[i].1, draw, self.step) {
                Ok(count) => count,
                Err(e) => {
                    assert(!in_range(noisy_count(arg@[i as int].1, draws[i as int], self.step)));
                    return Err(Error::ArithmeticFailure);
                },
            };
            proof {
                assert(noisy.take(i + 1).drop_last() == noisy.take(i as int));
                assert(noisy.take(i + 1).last() == (arg@[i as int].0, count));
            }
            if !count.lt(&self.threshold) {
                released.push((arg[i].0, count));
            }
            i += 1;
        }
        proof {
            assert(noisy.take(i as int) == noisy);
        }
        Ok(released)
    }
}

/// The privacy map of the mechanism: for inputs at most `d_in` apart, the
/// curve of the losses at each tolerance.
#[derive(Clone, Copy, Debug, PartialEq, Eq, Structural)]
pub struct CountReleaseMap {
    pub scale: Fixed,
    pub threshold: Fixed,
    pub relaxation: Fixed,
}

impl BoundMap for CountReleaseMap {
    type In = Fixed;

    type Out = SmdCurve;

    open spec fn wf(&self) -> bool {
        self.scale@ >= 0 && self.relaxation@ >= 0
    }

    open spec fn spec_eval(&self, d_in: Fixed) -> Fallible<SmdCurve> {
        if d_in@ < 0 {
            Err(Error::InvalidDistance)
        } else {
            Ok(
                SmdCurve {
                    d_in,
                    relaxation: self.relaxation,
                    scale: self.scale,
                    threshold: self.threshold,
                },
            )
        }
    }

    fn eval(&self, d_in: &Fixed) -> (r: Fallible<SmdCurve>) {
        if d_in.is_sign_negative() {
            return Err(Error::InvalidDistance);
        }
        Ok(
            SmdCurve {
                d_in: *d_in,
                relaxation: self.relaxation,
                scale: self.scale,
                threshold: self.threshold,
            },
        )
    }

    proof fn lemma_rejects_invalid(&self, d_in: Fixed) {
    }

    proof fn lemma_monotone(&self, d1: Fixed, d2: Fixed) {
        let c1 = self.spec_eval(d1)->Ok_0;
        let c2 = self.spec_eval(d2)->Ok_0;
        assert forall|delta: Fixed| #[trigger] c2.spec_epsilon(delta) is Ok implies c1.spec_epsilon(
            delta,
        ) is Ok && c1.spec_epsilon(delta)->Ok_0.spec_le(&c2.spec_epsilon(delta)->Ok_0) by {
            let r1 = d1.spec_add(&self.relaxation)->Ok_0;
            let r2 = d2.spec_add(&self.relaxation)->Ok_0;
            lemma_loss_ratio_monotone(r1, r2, self.scale);
            if r1@ > 0 {
                lemma_min_threshold_monotone(r1, r2, delta, self.scale);
            }
        }
    }
}

/// The release of noisy counts above a threshold, for counts keyed by a
/// category. `k` is the exponent of the grid on which the noise is sampled;
/// by default it is the finest.
///
/// Fails with `InvalidParameter` if the scale is negative, and with
/// `ArithmeticFailure` if the step of the grid is out of range.
pub fn make_base_ptr<K: Atom>(scale: Fixed, threshold: Fixed, k: Option<i32>) -> (r: Fallible<
    Measurement<
        MapDomain<AllDomain<K>, AllDomain<Fixed>>,
        MapDomain<AllDomain<K>, AllDomain<Fixed>>,
        CountRelease<K>,
        L1Distance,
        SmoothedMaxDivergence,
        CountReleaseMap,
    >,
>)
    ensures
        r is Ok <==> scale@ >= 0 && spec_discretization_consts(k) is Ok,
        scale@ < 0 ==> r is Err && r->Err_0 == Error::InvalidParameter,
        scale@ >= 0 && spec_discretization_consts(k) is Err ==> r is Err && r->Err_0
            == Error::ArithmeticFailure,
        r is Ok ==> {
            let m = r->Ok_0;
            let consts = spec_discretization_consts(k)->Ok_0;
            &&& m.wf()
            &&& m.function.scale == scale
            &&& m.function.threshold == threshold
            &&& m.function.k == consts.0
            &&& m.function.step@ == spec_grid_step(consts.0)
            &&& m.privacy_map == (CountReleaseMap { scale, threshold, relaxation: consts.1 })
        },
{
    if scale.is_sign_negative() {
        return Err(Error::InvalidParameter);
    }
    let (k, relaxation) = get_discretization_consts(k)?;
    let step = grid_step(relaxation);
    let function = CountRelease { scale, threshold, k, step, marker: std::marker::PhantomData };
    let input_domain = MapDomain::new(AllDomain::new(), AllDomain::new());
    let output_domain = MapDomain::new(AllDomain::new(), AllDomain::new());
    proof {
        assert forall|x: Vec<(K, Fixed)>, noise: Vec<i64>, y: Fallible<Vec<(K, Fixed)>>|
            input_domain.spec_member(&x) && #[trigger] function.spec_release(&x, &noise, &y)
                && y is Ok implies output_domain.spec_member(&y->Ok_0) by {
            let draws = effective_draws(noise@, scale@ == 0, x@.len());
            let noisy = noisy_counts(x@, draws, step);
            assert(distinct_keys(noisy)) by {
                assert forall|i: int, j: int| 0 <= i < j < noisy.len() implies (#[trigger] noisy[i]).0.key()
                    != (#[trigger] noisy[j]).0.key() by {
                    assert(noisy[i].0 == x@[i].0 && noisy[j].0 == x@[j].0);
                }
            }
            lemma_above_threshold_keys(noisy, threshold);
        }
    }
    Ok(
        Measurement::new(
            input_domain,
            output_domain,
            function,
            L1Distance::default(),
            SmoothedMaxDivergence::default(),
            CountReleaseMap { scale, threshold, relaxation },
        ),
    )
}

} // verus!
