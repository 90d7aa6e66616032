//! Postprocessing of released counts: the cumulative distribution of a
//! histogram, and quantiles read off it.

use vstd::prelude::*;
use crate::domains::{AllDomain, Domain, VectorDomain};
use crate::error::{Error, Fallible};
use crate::fixed::{unit, Fixed, ONE_BITS};
use crate::metrics::AgnosticMetric;
use crate::traits::{Atom, Number};
use crate::transformations::{make_postprocess, AgnosticMap};
use crate::units::{Function, Transformation};

verus! {

/// The absolute difference of two lengths.
pub fn abs_diff(a: usize, b: usize) -> (r: usize)
    ensures
        r == if a < b {
            b - a
        } else {
            a - b
        },
{
    if a < b {
        b - a
    } else {
        a - b
    }
}

/// Whether the atoms at `lo..hi` are in strictly increasing order.
pub open spec fn increasing<T: Atom>(s: Seq<T>, lo: int, hi: int) -> bool {
    forall|i: int, j: int| lo <= i < j < hi ==> (#[trigger] s[i]).key() < (#[trigger] s[j]).key()
}

/// Whether the atoms at `lo..hi` are in non-decreasing order.
pub open spec fn sorted<T: Atom>(s: Seq<T>, lo: int, hi: int) -> bool {
    forall|i: int, j: int| lo <= i <= j < hi ==> (#[trigger] s[i]).key() <= (#[trigger] s[j]).key()
}

/// Whether `c` is a place in `x[lo..hi]` at which the atoms cross `target`
/// from below: the atom before `c`, if there is one, is less than `target`,
/// and the atom at `c`, if there is one, is not.
pub open spec fn crossing<T: Atom>(x: Seq<T>, lo: int, hi: int, target: T, c: int) -> bool {
    &&& lo <= c <= hi
    &&& c > lo ==> x[c - 1].key() < target.key()
    &&& c < hi ==> x[c].key() >= target.key()
}

/// Whether `c` is the number of atoms in `x[lo..hi]` that are less than
/// `target`, given that they all come first.
pub open spec fn counts_below<T: Atom>(x: Seq<T>, lo: int, hi: int, target: T, c: int) -> bool {
    &&& lo <= c <= hi
    &&& forall|i: int| lo <= i < c ==> (#[trigger] x[i]).key() < target.key()
    &&& forall|i: int| c <= i < hi ==> (#[trigger] x[i]).key() >= target.key()
}

/// In sorted data there is one crossing, and it counts the atoms below the
/// target.
pub proof fn lemma_crossing_counts<T: Atom>(x: Seq<T>, lo: int, hi: int, target: T, c: int)
    requires
        sorted(x, lo, hi),
        crossing(x, lo, hi, target, c),
    ensures
        counts_below(x, lo, hi, target, c),
{
    assert forall|i: int| lo <= i < c implies (#[trigger] x[i]).key() < target.key() by {
        assert(x[i].key() <= x[c - 1].key());
    }
    assert forall|i: int| c <= i < hi implies (#[trigger] x[i]).key() >= target.key() by {
        assert(x[c].key() <= x[i].key());
    }
}

/// A larger target has no fewer atoms below it.
pub proof fn lemma_counts_ordered<T: Atom>(
    x: Seq<T>,
    lo: int,
    hi: int,
    target1: T,
    target2: T,
    c1: int,
    c2: int,
)
    requires
        target1.key() <= target2.key(),
        counts_below(x, lo, hi, target1, c1),
        counts_below(x, lo, hi, target2, c2),
    ensures
        c1 <= c2,
{
    if c2 < c1 {
        assert(x[c2].key() < target1.key());
        assert(x[c2].key() >= target2.key());
    }
}

/// Finds by bisection a place in `x[lo..hi]` at which the atoms cross
/// `target`, and returns how far it lies behind `lo`. In sorted data that is
/// the number of atoms less than `target`.
pub fn count_lt<TI: Atom>(x: &Vec<TI>, lo: usize, hi: usize, target: &TI) -> (r: usize)
    requires
        lo <= hi <= x@.len(),
    ensures
        crossing(x@, lo as int, hi as int, *target, lo + r),
        sorted(x@, lo as int, hi as int) ==> counts_below(
            x@,
            lo as int,
            hi as int,
            *target,
            lo + r,
        ),
{
    if lo == hi {
        return 0;
    }
    let mut lower: usize = lo;
    let mut upper: usize = hi;
    while upper - lower > 1
        invariant
            lo <= lower < upper <= hi <= x@.len(),
            lower == lo || x@[lower as int].key() < target.key(),
            upper == hi || x@[upper as int].key() >= target.key(),
        decreases upper - lower,
    {
        let middle = lower + (upper - lower) / 2;
        if x[middle].lt(target) {
            lower = middle;
        } else {
            upper = middle;
        }
    }
    let r = if x[lower].lt(target) {
        upper - lo
    } else {
        lower - lo
    };
    proof {
        if sorted(x@, lo as int, hi as int) {
            lemma_crossing_counts(x@, lo as int, hi as int, *target, lo + r);
        }
    }
    r
}

/// For each edge at `edge_lo..edge_hi`, finds a place in `x[x_lo..x_hi]` at
/// which the atoms cross the edge, and writes it to `counts` at the index of
/// the edge. The edges must be sorted. The middle edge is looked up first;
/// the edges before it are then looked up only in the data before its place,
/// and the edges after it only in the data from its place on.
pub fn count_lt_recursive<TI: Atom>(
    counts: &mut Vec<usize>,
    edges: &Vec<TI>,
    x: &Vec<TI>,
    edge_lo: usize,
    edge_hi: usize,
    x_lo: usize,
    x_hi: usize,
)
    requires
        edge_lo <= edge_hi <= edges@.len(),
        edge_hi <= old(counts)@.len(),
        x_lo <= x_hi <= x@.len(),
        sorted(edges@, edge_lo as int, edge_hi as int),
    ensures
        final(counts)@.len() == old(counts)@.len(),
        forall|i: int|
            0 <= i < edge_lo || edge_hi <= i < old(counts)@.len() ==> final(counts)@[i]
                == old(counts)@[i],
        forall|i: int|
            edge_lo <= i < edge_hi ==> crossing(
                x@,
                x_lo as int,
                x_hi as int,
                edges@[i],
                #[trigger] final(counts)@[i] as int,
            ),
        sorted(x@, x_lo as int, x_hi as int) ==> forall|i: int|
            edge_lo <= i < edge_hi ==> counts_below(
                x@,
                x_lo as int,
                x_hi as int,
                edges@[i],
                #[trigger] final(counts)@[i] as int,
            ),
        sorted(x@, x_lo as int, x_hi as int) ==> forall|i: int, j: int|
            edge_lo <= i <= j < edge_hi ==> #[trigger] final(counts)@[i]
                <= #[trigger] final(counts)@[j],
    decreases edge_hi - edge_lo,
{
    if edge_lo == edge_hi {
        return ;
    }
    if edge_hi - edge_lo == 1 {
        let c = x_lo + count_lt(x, x_lo, x_hi, &edges[edge_lo]);
        counts.set(edge_lo, c);
        return ;
    }
    let mid_edge_idx = edge_lo + (edge_hi - edge_lo - 1) / 2 + 1;
    let mid_x_idx = x_lo + count_lt(x, x_lo, x_hi, &edges[mid_edge_idx]);
    counts.set(mid_edge_idx, mid_x_idx);
    let ghost after_mid = counts@;
    count_lt_recursive(counts, edges, x, edge_lo, mid_edge_idx, x_lo, mid_x_idx);
    let ghost after_left = counts@;
    count_lt_recursive(counts, edges, x, mid_edge_idx + 1, edge_hi, mid_x_idx, x_hi);
    proof {
        let mid = edges@[mid_edge_idx as int];
        assert forall|i: int| edge_lo <= i < edge_hi implies crossing(
            x@,
            x_lo as int,
            x_hi as int,
            edges@[i],
            #[trigger] counts@[i] as int,
        ) by {
            if i < mid_edge_idx {
                assert(counts@[i] == after_left[i]);
                assert(edges@[i].key() <= mid.key());
            } else if i == mid_edge_idx {
                assert(counts@[i] == after_left[i]);
                assert(after_left[i] == after_mid[i]);
            } else {
                assert(mid.key() <= edges@[i].key());
            }
        }
        if sorted(x@, x_lo as int, x_hi as int) {
            assert forall|i: int| edge_lo <= i < edge_hi implies counts_below(
                x@,
                x_lo as int,
                x_hi as int,
                edges@[i],
                #[trigger] counts@[i] as int,
            ) by {
                lemma_crossing_counts(x@, x_lo as int, x_hi as int, edges@[i], counts@[i] as int);
            }
            assert forall|i: int, j: int| edge_lo <= i <= j < edge_hi implies #[trigger] counts@[i]
                <= #[trigger] counts@[j] by {
                lemma_counts_ordered(
                    x@,
                    x_lo as int,
                    x_hi as int,
                    edges@[i],
                    edges@[j],
                    counts@[i] as int,
                    counts@[j] as int,
                );
            }
        }
    }
}

/// The sum of the first `n` counts, or the failure of the first sum that is
/// out of range.
pub open spec fn running_sum<T: Number>(counts: Seq<T>, n: nat) -> Fallible<T>
    decreases n,
{
    if n == 0 {
        Ok(T::spec_zero())
    } else {
        match running_sum(counts, (n - 1) as nat) {
            Ok(sum) => sum.spec_plus(&counts[n - 1]),
            Err(e) => Err(e),
        }
    }
}

/// The first `n` running sums as fixed-point numbers, or the first failure
/// met on the way.
pub open spec fn cumulative<T: Number>(counts: Seq<T>, n: nat) -> Fallible<Seq<Fixed>>
    decreases n,
{
    if n == 0 {
        Ok(Seq::empty())
    } else {
        match cumulative(counts, (n - 1) as nat) {
            Err(e) => Err(e),
            Ok(front) => match running_sum(counts, n) {
                Err(e) => Err(e),
                Ok(sum) => match sum.spec_to_fixed() {
                    Err(e) => Err(e),
                    Ok(sum) => Ok(front.push(sum)),
                },
            },
        }
    }
}

/// The first `n` sums, each divided by `total` and rounded down, or the
/// first failure met on the way.
pub open spec fn normalized(sums: Seq<Fixed>, total: Fixed, n: nat) -> Fallible<Seq<Fixed>>
    decreases n,
{
    if n == 0 {
        Ok(Seq::empty())
    } else {
        match normalized(sums, total, (n - 1) as nat) {
            Err(e) => Err(e),
            Ok(front) => match sums[n - 1].spec_neg_inf_div(&total) {
                Err(e) => Err(e),
                Ok(share) => Ok(front.push(share)),
            },
        }
    }
}

/// The cumulative distribution of a histogram: for each bin, the share of the
/// total count that lies in the bins up to it. There is none for no bins.
pub open spec fn spec_cdf<T: Number>(counts: Seq<T>) -> Fallible<Seq<Fixed>> {
    if counts.len() == 0 {
        Err(Error::FailedFunction)
    } else {
        match cumulative(counts, counts.len()) {
            Err(e) => Err(e),
            Ok(sums) => normalized(sums, sums.last(), sums.len()),
        }
    }
}

proof fn lemma_cumulative_fails<T: Number>(counts: Seq<T>, n: nat, m: nat)
    requires
        n <= m,
        cumulative(counts, n) is Err,
    ensures
        cumulative(counts, m) == cumulative(counts, n),
    decreases m,
{
    if n < m {
        lemma_cumulative_fails(counts, n, (m - 1) as nat);
    }
}

proof fn lemma_cumulative_len<T: Number>(counts: Seq<T>, n: nat)
    requires
        cumulative(counts, n) is Ok,
    ensures
        cumulative(counts, n)->Ok_0.len() == n,
    decreases n,
{
    if n > 0 {
        lemma_cumulative_len(counts, (n - 1) as nat);
    }
}

proof fn lemma_normalized_fails(sums: Seq<Fixed>, total: Fixed, n: nat, m: nat)
    requires
        n <= m,
        normalized(sums, total, n) is Err,
    ensures
        normalized(sums, total, m) == normalized(sums, total, n),
    decreases m,
{
    if n < m {
        lemma_normalized_fails(sums, total, n, (m - 1) as nat);
    }
}

proof fn lemma_normalized_shape(sums: Seq<Fixed>, total: Fixed, n: nat)
    requires
        normalized(sums, total, n) is Ok,
    ensures
        normalized(sums, total, n)->Ok_0.len() == n,
        forall|i: int|
            0 <= i < n ==> sums[i].spec_neg_inf_div(&total) == Ok::<Fixed, Error>(
                #[trigger] normalized(sums, total, n)->Ok_0[i],
            ),
    decreases n,
{
    if n > 0 {
        lemma_normalized_shape(sums, total, (n - 1) as nat);
    }
}

/// A cumulative distribution has one entry for each bin, and ends in one.
pub proof fn lemma_cdf_shape<T: Number>(counts: Seq<T>)
    requires
        spec_cdf(counts) is Ok,
    ensures
        spec_cdf(counts)->Ok_0.len() == counts.len(),
        counts.len() > 0,
        spec_cdf(counts)->Ok_0.last()@ == unit(),
{
    let sums = cumulative(counts, counts.len())->Ok_0;
    lemma_cumulative_len(counts, counts.len());
    lemma_normalized_shape(sums, sums.last(), sums.len());
    let t = sums.last()@;
    let cdf = spec_cdf(counts)->Ok_0;
    assert(sums.last().spec_neg_inf_div(&sums.last()) == Ok::<Fixed, Error>(cdf[sums.len() - 1]));
    assert(t != 0);
    if t > 0 {
        vstd::arithmetic::div_mod::lemma_div_multiples_vanish(unit(), t);
        assert(t * unit() == unit() * t) by (nonlinear_arith);
    } else {
        vstd::arithmetic::div_mod::lemma_div_multiples_vanish(unit(), -t);
        assert(-t * unit() == unit() * (-t)) by (nonlinear_arith);
        assert(-t * unit() == (-t) * unit()) by (nonlinear_arith);
    }
}

/// Computes the cumulative distribution of a histogram.
#[verifier::loop_isolation(false)]
pub fn cdf_of<T: Number>(counts: &Vec<T>) -> (r: Fallible<Vec<Fixed>>)
    ensures
        match spec_cdf(counts@) {
            Ok(cdf) => r is Ok && r->Ok_0@ == cdf,
            Err(e) => r is Err && r->Err_0 == e,
        },
{
    if counts.len() == 0 {
        return Err(Error::FailedFunction);
    }
    let mut sum = T::zero();
    let mut sums: Vec<Fixed> = Vec::new();
    let mut i: usize = 0;
    while i < counts.len()
        invariant
            i <= counts@.len(),
            running_sum(counts@, i as nat) == Ok::<T, Error>(sum),
            cumulative(counts@, i as nat) == Ok::<Seq<Fixed>, Error>(sums@),
        decreases counts@.len() - i,
    {
        let next = sum.plus(&counts[i]);
        let cast = match next {
            Ok(next) => {
                sum = next;
                next.to_fixed()
            },
            Err(e) => Err(e),
        };
        match cast {
            Ok(cast) => {
                sums.push(cast);
            },
            Err(e) => {
                proof {
                    lemma_cumulative_fails(counts@, (i + 1) as nat, counts@.len());
                }
                return Err(e);
            },
        }
        i += 1;
    }
    proof {
        lemma_cumulative_len(counts@, counts@.len());
    }
    let total = sums[sums.len() - 1];
    let mut cdf: Vec<Fixed> = Vec::new();
    let mut j: usize = 0;
    while j < sums.len()
        invariant
            j <= sums@.len(),
            normalized(sums@, total, j as nat) == Ok::<Seq<Fixed>, Error>(cdf@),
        decreases sums@.len() - j,
    {
        match sums[j].neg_inf_div(&total) {
            Ok(share) => {
                cdf.push(share);
            },
            Err(e) => {
                proof {
                    lemma_normalized_fails(sums@, total, (j + 1) as nat, sums@.len());
                }
                return Err(e);
            },
        }
        j += 1;
    }
    Ok(cdf)
}

/// The function that turns a histogram into its cumulative distribution.
#[derive(Clone, Copy, Debug, PartialEq, Eq, Structural)]
pub struct Cdf {}

impl Function for Cdf {
    type In = Vec<Fixed>;

    type Out = Vec<Fixed>;

    open spec fn wf(&self) -> bool {
        true
    }

    open spec fn spec_eval(&self, arg: &Vec<Fixed>, out: &Fallible<Vec<Fixed>>) -> bool {
        match spec_cdf(arg@) {
            Ok(cdf) => *out is Ok && out->Ok_0@ == cdf,
            Err(e) => *out == Err::<Vec<Fixed>, Error>(e),
        }
    }

    fn eval(&self, arg: &Vec<Fixed>) -> (r: Fallible<Vec<Fixed>>) {
        cdf_of(arg)
    }
}

/// The postprocessor that maps a vector of counts to their cumulative
/// distribution.
pub fn make_cdf() -> (r: Fallible<
    Transformation<
        VectorDomain<AllDomain<Fixed>>,
        VectorDomain<AllDomain<Fixed>>,
        Cdf,
        AgnosticMetric,
        AgnosticMetric,
        AgnosticMap,
    >,
>)
    ensures
        r is Ok,
        r->Ok_0.wf(),
        forall|x: Vec<Fixed>| #[trigger] r->Ok_0.input_domain.spec_member(&x),
{
    make_postprocess(VectorDomain::new_all(), VectorDomain::new_all(), Cdf {  })
}

/// How a quantile is read off the two bin edges that it lies between.
#[derive(Clone, Copy, Debug, PartialEq, Eq, Structural)]
pub enum Interpolation {
    /// The edge that is nearer in cumulative mass; the left one if both are
    /// as near.
    Nearest,
    /// The point between the edges that divides them as the quantile divides
    /// the mass of the bin.
    Linear,
}

/// The point between `left_edge` and `right_edge` that divides them as
/// `alpha` divides the span from `left` to `right`, every step rounded down
/// and the result cast to the nearest number of the type of the edges.
pub open spec fn spec_interpolate<T: Number>(
    left: Fixed,
    right: Fixed,
    alpha: Fixed,
    left_edge: T,
    right_edge: T,
) -> Fallible<T> {
    match left_edge.spec_to_fixed() {
        Err(e) => Err(e),
        Ok(low) => match right_edge.spec_to_fixed() {
            Err(e) => Err(e),
            Ok(high) => match alpha.spec_sub(&left) {
                Err(e) => Err(e),
                Ok(above) => match right.spec_sub(&left) {
                    Err(e) => Err(e),
                    Ok(span) => match above.spec_neg_inf_div(&span) {
                        Err(e) => Err(e),
                        Ok(t) => match (Fixed { bits: ONE_BITS }).spec_sub(&t) {
                            Err(e) => Err(e),
                            Ok(rest) => match rest.spec_neg_inf_mul(&low) {
                                Err(e) => Err(e),
                                Ok(from_low) => match t.spec_neg_inf_mul(&high) {
                                    Err(e) => Err(e),
                                    Ok(from_high) => match from_low.spec_add(&from_high) {
                                        Err(e) => Err(e),
                                        Ok(v) => T::spec_from_fixed(v),
                                    },
                                },
                            },
                        },
                    },
                },
            },
        },
    }
}

pub fn interpolate<T: Number>(
    left: &Fixed,
    right: &Fixed,
    alpha: &Fixed,
    left_edge: &T,
    right_edge: &T,
) -> (r: Fallible<T>)
    ensures
        r == spec_interpolate(*left, *right, *alpha, *left_edge, *right_edge),
{
    let low = left_edge.to_fixed()?;
    let high = right_edge.to_fixed()?;
    let above = alpha.inf_sub(left)?;
    let span = right.inf_sub(left)?;
    let t = above.neg_inf_div(&span)?;
    let rest = Fixed::one().inf_sub(&t)?;
    let from_low = rest.neg_inf_mul(&low)?;
    let from_high = t.neg_inf_mul(&high)?;
    let v = from_low.inf_add(&from_high)?;
    T::from_fixed(&v)
}

/// The cumulative mass to the left of the bin at `idx`.
pub open spec fn left_mass(cdf: Seq<Fixed>, idx: int) -> Fixed {
    if idx == 0 {
        Fixed { bits: 0 }
    } else {
        cdf[idx - 1]
    }
}

/// The quantile `alpha`, given that it lies in the bin at `idx`.
pub open spec fn spec_quantile<T: Number>(
    cdf: Seq<Fixed>,
    edges: Seq<T>,
    alpha: Fixed,
    idx: int,
    interpolation: Interpolation,
) -> Fallible<T> {
    let left = left_mass(cdf, idx);
    let right = cdf[idx];
    match interpolation {
        Interpolation::Nearest => if alpha@ - left@ > right@ - alpha@ {
            Ok(edges[idx + 1])
        } else {
            Ok(edges[idx])
        },
        Interpolation::Linear => spec_interpolate(left, right, alpha, edges[idx], edges[idx + 1]),
    }
}

/// The first `n` quantiles, or the first failure met on the way.
pub open spec fn spec_quantiles<T: Number>(
    cdf: Seq<Fixed>,
    edges: Seq<T>,
    alphas: Seq<Fixed>,
    places: Seq<usize>,
    interpolation: Interpolation,
    n: nat,
) -> Fallible<Seq<T>>
    decreases n,
{
    if n == 0 {
        Ok(Seq::empty())
    } else {
        match spec_quantiles(cdf, edges, alphas, places, interpolation, (n - 1) as nat) {
            Err(e) => Err(e),
            Ok(front) => match spec_quantile(
                cdf,
                edges,
                alphas[n - 1],
                places[n - 1] as int,
                interpolation,
            ) {
                Err(e) => Err(e),
                Ok(q) => Ok(front.push(q)),
            },
        }
    }
}

proof fn lemma_quantiles_fail<T: Number>(
    cdf: Seq<Fixed>,
    edges: Seq<T>,
    alphas: Seq<Fixed>,
    places: Seq<usize>,
    interpolation: Interpolation,
    n: nat,
    m: nat,
)
    requires
        n <= m,
        spec_quantiles(cdf, edges, alphas, places, interpolation, n) is Err,
    ensures
        spec_quantiles(cdf, edges, alphas, places, interpolation, m) == spec_quantiles(
            cdf,
            edges,
            alphas,
            places,
            interpolation,
            n,
        ),
    decreases m,
{
    if n < m {
        lemma_quantiles_fail(cdf, edges, alphas, places, interpolation, n, (m - 1) as nat);
    }
}

/// Whether `places` holds, for each of `alphas`, a place at which `cdf`
/// crosses it. Where the counts are not negative the distribution is sorted,
/// and there is only one such place: the bin that the quantile lies in.
pub open spec fn are_places(cdf: Seq<Fixed>, alphas: Seq<Fixed>, places: Seq<usize>) -> bool {
    &&& places.len() == alphas.len()
    &&& forall|i: int|
        0 <= i < alphas.len() ==> crossing(cdf, 0, cdf.len() as int, alphas[i], #[trigger] places[i] as int)
}

/// The counts of the bins between the edges: all the counts, or all but the
/// first and the last where those count what lies outside the edges.
pub open spec fn spec_bins<T>(counts: Seq<T>, edges: nat) -> Seq<T> {
    if edges + 1 == counts.len() {
        counts.subrange(1, counts.len() - 1)
    } else {
        counts
    }
}

/// The function that reads quantiles off a histogram with the given bin
/// edges.
pub struct QuantilesFromCounts<T> {
    pub bin_edges: Vec<T>,
    pub alphas: Vec<Fixed>,
    pub interpolation: Interpolation,
}

/// Whether there is an edge, the edges increase, and the quantiles asked for
/// increase from no less than zero to no more than one.
pub open spec fn valid_quantile_parameters<T: Number>(bin_edges: Seq<T>, alphas: Seq<Fixed>) -> bool {
    &&& bin_edges.len() > 0
    &&& increasing(bin_edges, 0, bin_edges.len() as int)
    &&& increasing(alphas, 0, alphas.len() as int)
    &&& alphas.len() > 0 ==> alphas.first()@ >= 0 && alphas.last()@ <= unit()
}

fn is_increasing<T: Atom>(v: &Vec<T>) -> (r: bool)
    ensures
        r == increasing(v@, 0, v@.len() as int),
{
    if v.len() < 2 {
        return true;
    }
    let mut i: usize = 1;
    while i < v.len()
        invariant
            1 <= i <= v@.len(),
            increasing(v@, 0, i as int),
        decreases v@.len() - i,
    {
        if !v[i - 1].lt(&v[i]) {
            return false;
        }
        proof {
            assert forall|a: int, b: int| 0 <= a < b < i + 1 implies (#[trigger] v@[a]).key() < (
            #[trigger] v@[b]).key() by {
                if b == i && a < i - 1 {
                    assert(v@[a].key() < v@[i - 1].key());
                }
            }
        }
        i += 1;
    }
    true
}

fn copy_range<T: Copy>(v: &Vec<T>, lo: usize, hi: usize) -> (r: Vec<T>)
    requires
        lo <= hi <= v@.len(),
    ensures
        r@ == v@.subrange(lo as int, hi as int),
{
    let mut r: Vec<T> = Vec::new();
    let mut i: usize = lo;
    while i < hi
        invariant
            lo <= i <= hi <= v@.len(),
            r@ == v@.subrange(lo as int, i as int),
        decreases hi - i,
    {
        r.push(v[i]);
        proof {
            assert(v@.subrange(lo as int, i + 1) == v@.subrange(lo as int, i as int).push(v@[i as int]));
        }
        i += 1;
    }
    r
}

fn repeat<T: Copy>(value: T, n: usize) -> (r: Vec<T>)
    ensures
        r@ == Seq::new(n as nat, |i: int| value),
{
    let mut r: Vec<T> = Vec::new();
    let mut i: usize = 0;
    while i < n
        invariant
            i <= n,
            r@ == Seq::new(i as nat, |j: int| value),
        decreases n - i,
    {
        r.push(value);
        proof {
            assert(r@ == Seq::new((i + 1) as nat, |j: int| value));
        }
        i += 1;
    }
    r
}

impl<T: Number> QuantilesFromCounts<T> {
    fn quantile(&self, cdf: &Vec<Fixed>, alpha: &Fixed, idx: usize) -> (r: Fallible<T>)
        requires
            idx < cdf@.len(),
            idx + 1 < self.bin_edges@.len(),
        ensures
            r == spec_quantile(cdf@, self.bin_edges@, *alpha, idx as int, self.interpolation),
    {
        let left = if idx == 0 {
            Fixed::zero()
        } else {
            cdf[idx - 1]
        };
        let right = cdf[idx];
        let edges = self.bin_edges.len();
        let next = idx + 1;
        match self.interpolation {
            Interpolation::Nearest => {
                let to_left: i128 = alpha.bits as i128 - left.bits as i128;
                let to_right: i128 = right.bits as i128 - alpha.bits as i128;
                if to_left > to_right {
                    Ok(self.bin_edges[next])
                } else {
                    Ok(self.bin_edges[idx])
                }
            },
            Interpolation::Linear => interpolate(
                &left,
                &right,
                alpha,
                &self.bin_edges[idx],
                &self.bin_edges[next],
            ),
        }
    }
}

impl<T: Number> Function for QuantilesFromCounts<T> {
    type In = Vec<T>;

    type Out = Vec<T>;

    open spec fn wf(&self) -> bool {
        valid_quantile_parameters(self.bin_edges@, self.alphas@)
    }

    /// There must be one count for each bin between the edges, with or
    /// without two more for what lies outside the edges. With a single edge
    /// and no count, every quantile is that edge.
    open spec fn spec_eval(&self, arg: &Vec<T>, out: &Fallible<Vec<T>>) -> bool {
        let edges = self.bin_edges@;
        let alphas = self.alphas@;
        if edges.len() != arg@.len() + 1 && edges.len() + 1 != arg@.len() {
            *out == Err::<Vec<T>, Error>(Error::FailedFunction)
        } else if arg@.len() == 0 {
            *out is Ok && out->Ok_0@ == Seq::new(alphas.len(), |i: int| edges[0])
        } else {
            match spec_cdf(spec_bins(arg@, edges.len())) {
                Err(e) => *out == Err::<Vec<T>, Error>(e),
                Ok(cdf) => exists|places: Seq<usize>| #[trigger]
                    are_places(cdf, alphas, places) && match spec_quantiles(
                        cdf,
                        edges,
                        alphas,
                        places,
                        self.interpolation,
                        alphas.len(),
                    ) {
                        Ok(quantiles) => *out is Ok && out->Ok_0@ == quantiles,
                        Err(e) => *out == Err::<Vec<T>, Error>(e),
                    },
            }
        }
    }

    #[verifier::loop_isolation(false)]
    fn eval(&self, arg: &Vec<T>) -> (r: Fallible<Vec<T>>) {
        if abs_diff(self.bin_edges.len(), arg.len()) != 1 {
            return Err(Error::FailedFunction);
        }
        if arg.len() == 0 {
            return Ok(repeat(self.bin_edges[0], self.alphas.len()));
        }
        let bins = if self.bin_edges.len() < arg.len() {
            copy_range(arg, 1, arg.len() - 1)
        } else {
            copy_range(arg, 0, arg.len())
        };
        proof {
            assert(arg@.subrange(0, arg@.len() as int) == arg@);
            assert(bins@ == spec_bins(arg@, self.bin_edges@.len()));
        }
        let cdf = cdf_of(&bins)?;
        proof {
            lemma_cdf_shape(bins@);
        }
        let mut places: Vec<usize> = repeat(0usize, self.alphas.len());
        count_lt_recursive(&mut places, &self.alphas, &cdf, 0, self.alphas.len(), 0, cdf.len());
        assert(are_places(cdf@, self.alphas@, places@));
        let mut quantiles: Vec<T> = Vec::new();
        let mut i: usize = 0;
        while i < self.alphas.len()
            invariant
                i <= self.alphas@.len(),
                self.wf(),
                are_places(cdf@, self.alphas@, places@),
                cdf@.len() + 1 == self.bin_edges@.len(),
                cdf@.len() > 0,
                cdf@.last()@ == unit(),
                spec_quantiles(
                    cdf@,
                    self.bin_edges@,
                    self.alphas@,
                    places@,
                    self.interpolation,
                    i as nat,
                ) == Ok::<Seq<T>, Error>(quantiles@),
            decreases self.alphas@.len() - i,
        {
            let idx = places[i];
            proof {
                let n = self.alphas@.len() as int;
                assert(crossing(cdf@, 0, cdf@.len() as int, self.alphas@[i as int], places@[i as int] as int));
                assert(self.alphas@[i as int].key() <= self.alphas@[n - 1].key());
                assert(self.alphas@.last() == self.alphas@[n - 1]);
            }
            match self.quantile(&cdf, &self.alphas[i], idx) {
                Ok(q) => {
                    quantiles.push(q);
                },
                Err(e) => {
                    proof {
                        lemma_quantiles_fail(
                            cdf@,
                            self.bin_edges@,
                            self.alphas@,
                            places@,
                            self.interpolation,
                            (i + 1) as nat,
                            self.alphas@.len(),
                        );
                    }
                    return Err(e);
                },
            }
            i += 1;
        }
        Ok(quantiles)
    }
}

/// The postprocessor that reads the quantiles `alphas` off a histogram with
/// the given bin edges.
///
/// Fails with `InvalidParameter` if there is no edge, if the edges or the
/// quantiles do not increase, or if a quantile is below zero or above one.
pub fn make_quantiles_from_counts<TA: Number>(
    bin_edges: Vec<TA>,
    alphas: Vec<Fixed>,
    interpolation: Interpolation,
) -> (r: Fallible<
    Transformation<
        VectorDomain<AllDomain<TA>>,
        VectorDomain<AllDomain<TA>>,
        QuantilesFromCounts<TA>,
        AgnosticMetric,
        AgnosticMetric,
        AgnosticMap,
    >,
>)
    ensures
        r is Ok <==> valid_quantile_parameters(bin_edges@, alphas@),
        r is Err ==> r->Err_0 == Error::InvalidParameter,
        r is Ok ==> {
            let t = r->Ok_0;
            &&& t.wf()
            &&& forall|x: Vec<TA>| #[trigger] t.input_domain.spec_member(&x)
            &&& t.function.bin_edges == bin_edges
            &&& t.function.alphas == alphas
            &&& t.function.interpolation == interpolation
        },
{
    if bin_edges.len() == 0 {
        return Err(Error::InvalidParameter);
    }
    if !is_increasing(&bin_edges) {
        return Err(Error::InvalidParameter);
    }
    if !is_increasing(&alphas) {
        return Err(Error::InvalidParameter);
    }
    if alphas.len() > 0 {
        if alphas[0].is_sign_negative() {
            return Err(Error::InvalidParameter);
        }
        if Fixed::one().lt(&alphas[alphas.len() - 1]) {
            return Err(Error::InvalidParameter);
        }
    }
    make_postprocess(
        VectorDomain::new_all(),
        VectorDomain::new_all(),
        QuantilesFromCounts { bin_edges, alphas, interpolation },
    )
}

} // verus!
