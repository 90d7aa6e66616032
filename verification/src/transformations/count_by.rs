//! Counting the records of each category.

use vstd::prelude::*;
use crate::domains::{distinct_keys, AllDomain, Domain, MapDomain, VectorDomain};
use crate::error::{Error, Fallible};
use crate::fixed::{unit, Fixed, ONE_BITS};
use crate::metrics::{L1Distance, SymmetricDistance};
use crate::traits::Atom;
use crate::units::{BoundMap, Function, Transformation};

verus! {

/// Whether some entry has the given key.
pub open spec fn has_key<K: Atom>(entries: Seq<(K, Fixed)>, key: K) -> bool {
    exists|i: int| 0 <= i < entries.len() && (#[trigger] entries[i]).0.key() == key.key()
}

/// The place of an entry with the given key.
pub open spec fn key_index<K: Atom>(entries: Seq<(K, Fixed)>, key: K) -> int {
    choose|i: int| 0 <= i < entries.len() && (#[trigger] entries[i]).0.key() == key.key()
}

/// The counts after one more record of the category `key`: its count is
/// raised by one, or it is entered at the end with a count of one.
pub open spec fn spec_count_one<K: Atom>(counts: Seq<(K, Fixed)>, key: K) -> Fallible<
    Seq<(K, Fixed)>,
> {
    if has_key(counts, key) {
        let i = key_index(counts, key);
        match counts[i].1.spec_add(&Fixed { bits: ONE_BITS }) {
            Err(e) => Err(e),
            Ok(count) => Ok(counts.update(i, (counts[i].0, count))),
        }
    } else {
        Ok(counts.push((key, Fixed { bits: ONE_BITS })))
    }
}

/// The counts of the categories of the first `n` records, in the order in
/// which the categories first occur, or the failure that a count is out of
/// range.
pub open spec fn spec_count_by<K: Atom>(records: Seq<K>, n: nat) -> Fallible<Seq<(K, Fixed)>>
    decreases n,
{
    if n == 0 {
        Ok(Seq::empty())
    } else {
        match spec_count_by(records, (n - 1) as nat) {
            Err(e) => Err(e),
            Ok(counts) => spec_count_one(counts, records[n - 1]),
        }
    }
}

proof fn lemma_count_by_fails<K: Atom>(records: Seq<K>, n: nat, m: nat)
    requires
        n <= m,
        spec_count_by(records, n) is Err,
    ensures
        spec_count_by(records, m) == spec_count_by(records, n),
    decreases m,
{
    if n < m {
        lemma_count_by_fails(records, n, (m - 1) as nat);
    }
}

/// Counting one more record leaves no key listed twice.
pub proof fn lemma_count_one_distinct<K: Atom>(counts: Seq<(K, Fixed)>, key: K)
    requires
        distinct_keys(counts),
        spec_count_one(counts, key) is Ok,
    ensures
        distinct_keys(spec_count_one(counts, key)->Ok_0),
{
    let after = spec_count_one(counts, key)->Ok_0;
    if has_key(counts, key) {
        let i = key_index(counts, key);
        assert forall|a: int, b: int| 0 <= a < b < after.len() implies (#[trigger] after[a]).0.key()
            != (#[trigger] after[b]).0.key() by {
            assert(after[a].0 == counts[a].0 && after[b].0 == counts[b].0);
        }
    } else {
        assert forall|a: int, b: int| 0 <= a < b < after.len() implies (#[trigger] after[a]).0.key()
            != (#[trigger] after[b]).0.key() by {
            assert(after[a] == counts[a]);
            if b < counts.len() {
                assert(after[b] == counts[b]);
            }
        }
    }
}

/// No key is listed twice among the counts.
pub proof fn lemma_count_by_distinct<K: Atom>(records: Seq<K>, n: nat)
    requires
        spec_count_by(records, n) is Ok,
    ensures
        distinct_keys(spec_count_by(records, n)->Ok_0),
    decreases n,
{
    if n > 0 {
        lemma_count_by_distinct(records, (n - 1) as nat);
        lemma_count_one_distinct(spec_count_by(records, (n - 1) as nat)->Ok_0, records[n - 1]);
    }
}

/// Counts one more record of the category `key`.
pub fn count_one<K: Atom>(counts: &mut Vec<(K, Fixed)>, key: K) -> (r: Fallible<()>)
    requires
        distinct_keys(old(counts)@),
    ensures
        match spec_count_one(old(counts)@, key) {
            Ok(after) => r is Ok && final(counts)@ == after,
            Err(e) => r is Err && r->Err_0 == e,
        },
{
    let mut i: usize = 0;
    while i < counts.len()
        invariant
            i <= counts@.len(),
            counts@ == old(counts)@,
            distinct_keys(counts@),
            forall|j: int| 0 <= j < i ==> (#[trigger] counts@[j]).0.key() != key.key(),
        decreases counts@.len() - i,
    {
        if counts[i].0.same(&key) {
            let entry = counts[i];
            proof {
                assert(has_key(counts@, key));
                let j = key_index(counts@, key);
                assert(j == i) by {
                    if j < i {
                        assert(counts@[j].0.key() != counts@[i as int].0.key());
                    }
                    if i < j {
                        assert(counts@[i as int].0.key() != counts@[j].0.key());
                    }
                }
            }
            let count = entry.1.inf_add(&Fixed::one())?;
            counts.set(i, (entry.0, count));
            return Ok(());
        }
        i += 1;
    }
    counts.push((key, Fixed::one()));
    Ok(())
}

/// The function that counts the records of each category.
pub struct CountBy<K> {
    pub marker: std::marker::PhantomData<K>,
}

impl<K: Atom> Function for CountBy<K> {
    type In = Vec<K>;

    type Out = Vec<(K, Fixed)>;

    open spec fn wf(&self) -> bool {
        true
    }

    open spec fn spec_eval(&self, arg: &Vec<K>, out: &Fallible<Vec<(K, Fixed)>>) -> bool {
        match spec_count_by(arg@, arg@.len()) {
            Ok(counts) => *out is Ok && out->Ok_0@ == counts,
            Err(e) => *out == Err::<Vec<(K, Fixed)>, Error>(e),
        }
    }

    fn eval(&self, arg: &Vec<K>) -> (r: Fallible<Vec<(K, Fixed)>>) {
        let mut counts: Vec<(K, Fixed)> = Vec::new();
        let mut i: usize = 0;
        while i < arg.len()
            invariant
                i <= arg@.len(),
                spec_count_by(arg@, i as nat) == Ok::<Seq<(K, Fixed)>, Error>(counts@),
            decreases arg@.len() - i,
        {
            proof {
                lemma_count_by_distinct(arg@, i as nat);
            }
            match count_one(&mut counts, arg[i]) {
                Ok(()) => {},
                Err(e) => {
                    proof {
                        lemma_count_by_fails(arg@, (i + 1) as nat, arg@.len());
                    }
                    return Err(e);
                },
            }
            i += 1;
        }
        Ok(counts)
    }
}

/// The stability map of a count: the distance between two inputs, exactly,
/// as a fixed-point number.
#[derive(Clone, Copy, Debug, PartialEq, Eq, Structural)]
pub struct CountMap {}

impl BoundMap for CountMap {
    type In = u32;

    type Out = Fixed;

    open spec fn wf(&self) -> bool {
        true
    }

    open spec fn spec_eval(&self, d_in: u32) -> Fallible<Fixed> {
        Fixed::spec_exact_int_cast(d_in as int)
    }

    fn eval(&self, d_in: &u32) -> (r: Fallible<Fixed>) {
        Fixed::exact_int_cast(*d_in as i64)
    }

    proof fn lemma_rejects_invalid(&self, d_in: u32) {
    }

    proof fn lemma_monotone(&self, d1: u32, d2: u32) {
        assert(0 <= d1 * unit() <= d2 * unit()) by (nonlinear_arith)
            requires
                0 <= d1 <= d2,
                unit() > 0,
        ;
    }
}

/// The transformation that counts the records of each category. Adding or
/// removing one record changes one count by one.
pub fn make_count_by<K: Atom>() -> (r: Fallible<
    Transformation<
        VectorDomain<AllDomain<K>>,
        MapDomain<AllDomain<K>, AllDomain<Fixed>>,
        CountBy<K>,
        SymmetricDistance,
        L1Distance,
        CountMap,
    >,
>)
    ensures
        r is Ok,
        r->Ok_0.wf(),
        forall|x: Vec<K>| #[trigger] r->Ok_0.input_domain.spec_member(&x),
{
    let function = CountBy { marker: std::marker::PhantomData };
    let input_domain = VectorDomain::new_all();
    let output_domain = MapDomain::new(AllDomain::new(), AllDomain::new());
    proof {
        assert forall|x: Vec<K>, y: Fallible<Vec<(K, Fixed)>>|
            input_domain.spec_member(&x) && #[trigger] function.spec_eval(&x, &y)
                && y is Ok implies output_domain.spec_member(&y->Ok_0) by {
            lemma_count_by_distinct(x@, x@.len());
        }
    }
    Ok(
        Transformation::new(
            input_domain,
            output_domain,
            function,
            SymmetricDistance::default(),
            L1Distance::default(),
            CountMap {  },
        ),
    )
}

} // verus!
