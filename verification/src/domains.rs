//! Value-space descriptors: which values a unit accepts and produces.

use vstd::prelude::*;
use crate::traits::Atom;

verus! {

/// A set of legal values with a decidable membership test.
pub trait Domain {
    /// The type of the values that the domain is a subset of.
    type Carrier;

    /// Whether `x` is a legal value.
    spec fn spec_member(&self, x: &Self::Carrier) -> bool;

    /// Whether the two descriptors describe the same set.
    spec fn spec_same(&self, other: &Self) -> bool;

    fn member(&self, x: &Self::Carrier) -> (r: bool)
        ensures
            r == self.spec_member(x),
    ;

    fn same(&self, other: &Self) -> (r: bool)
        ensures
            r == self.spec_same(other),
    ;

    /// Descriptors that are the same have the same members.
    proof fn lemma_same_members(&self, other: &Self, x: &Self::Carrier)
        requires
            self.spec_same(other),
        ensures
            self.spec_member(x) == other.spec_member(x),
    ;
}

/// Every value of the type `T`.
#[derive(Debug)]
pub struct AllDomain<T> {
    pub marker: std::marker::PhantomData<T>,
}

impl<T> AllDomain<T> {
    pub fn new() -> (r: Self) {
        AllDomain { marker: std::marker::PhantomData }
    }
}

impl<T> Clone for AllDomain<T> {
    fn clone(&self) -> (r: Self) {
        AllDomain::new()
    }
}

impl<T> Copy for AllDomain<T> {

}

impl<T> Domain for AllDomain<T> {
    type Carrier = T;

    open spec fn spec_member(&self, x: &T) -> bool {
        true
    }

    open spec fn spec_same(&self, other: &Self) -> bool {
        true
    }

    fn member(&self, x: &T) -> (r: bool) {
        true
    }

    fn same(&self, other: &Self) -> (r: bool) {
        true
    }

    proof fn lemma_same_members(&self, other: &Self, x: &T) {
    }
}

/// The numbers between `lower` and `upper`, both included.
#[derive(Clone, Copy, Debug)]
pub struct BoundedDomain<T> {
    pub lower: T,
    pub upper: T,
}

impl<T: Atom> BoundedDomain<T> {
    /// A bounded domain is well formed if it is not empty.
    pub open spec fn wf(&self) -> bool {
        self.lower.key() <= self.upper.key()
    }

    /// The closed interval with the given bounds; `None` if `lower` is above
    /// `upper`.
    pub fn new_closed(bounds: (T, T)) -> (r: Option<Self>)
        ensures
            r is Some <==> bounds.0.key() <= bounds.1.key(),
            r is Some ==> r->Some_0.lower == bounds.0 && r->Some_0.upper == bounds.1 && r->Some_0.wf(),
    {
        if bounds.1.lt(&bounds.0) {
            None
        } else {
            Some(BoundedDomain { lower: bounds.0, upper: bounds.1 })
        }
    }
}

impl<T: Atom> Domain for BoundedDomain<T> {
    type Carrier = T;

    open spec fn spec_member(&self, x: &T) -> bool {
        self.lower.key() <= x.key() <= self.upper.key()
    }

    open spec fn spec_same(&self, other: &Self) -> bool {
        self.lower.key() == other.lower.key() && self.upper.key() == other.upper.key()
    }

    fn member(&self, x: &T) -> (r: bool) {
        !x.lt(&self.lower) && !self.upper.lt(x)
    }

    fn same(&self, other: &Self) -> (r: bool) {
        self.lower.same(&other.lower) && self.upper.same(&other.upper)
    }

    proof fn lemma_same_members(&self, other: &Self, x: &T) {
    }
}

/// The vectors, of any length, whose elements all lie in `element_domain`.
pub struct VectorDomain<D> {
    pub element_domain: D,
}

impl<D: Domain> VectorDomain<D> {
    pub fn new(element_domain: D) -> (r: Self)
        ensures
            r.element_domain == element_domain,
    {
        VectorDomain { element_domain }
    }
}

impl<T> VectorDomain<AllDomain<T>> {
    pub fn new_all() -> (r: Self) {
        VectorDomain { element_domain: AllDomain::new() }
    }
}

impl<D: Domain> Domain for VectorDomain<D> {
    type Carrier = Vec<D::Carrier>;

    open spec fn spec_member(&self, x: &Vec<D::Carrier>) -> bool {
        forall|i: int| 0 <= i < x@.len() ==> #[trigger] self.element_domain.spec_member(&x@[i])
    }

    open spec fn spec_same(&self, other: &Self) -> bool {
        self.element_domain.spec_same(&other.element_domain)
    }

    fn member(&self, x: &Vec<D::Carrier>) -> (r: bool) {
        let mut i: usize = 0;
        while i < x.len()
            invariant
                i <= x@.len(),
                forall|j: int| 0 <= j < i ==> #[trigger] self.element_domain.spec_member(&x@[j]),
            decreases x@.len() - i,
        {
            if !self.element_domain.member(&x[i]) {
                return false;
            }
            i += 1;
        }
        true
    }

    fn same(&self, other: &Self) -> (r: bool) {
        self.element_domain.same(&other.element_domain)
    }

    proof fn lemma_same_members(&self, other: &Self, x: &Vec<D::Carrier>) {
        assert forall|i: int| 0 <= i < x@.len() implies self.element_domain.spec_member(&x@[i])
            == other.element_domain.spec_member(&x@[i]) by {
            self.element_domain.lemma_same_members(&other.element_domain, &x@[i]);
        }
    }
}

/// The members of `element_domain` that hold exactly `size` elements.
pub struct SizedDomain<D> {
    pub element_domain: D,
    pub size: usize,
}

impl<D: Domain> SizedDomain<D> {
    pub fn new(element_domain: D, size: usize) -> (r: Self)
        ensures
            r.element_domain == element_domain,
            r.size == size,
    {
        SizedDomain { element_domain, size }
    }
}

impl<A: Domain> Domain for SizedDomain<VectorDomain<A>> {
    type Carrier = Vec<A::Carrier>;

    open spec fn spec_member(&self, x: &Vec<A::Carrier>) -> bool {
        x@.len() == self.size && self.element_domain.spec_member(x)
    }

    open spec fn spec_same(&self, other: &Self) -> bool {
        self.size == other.size && self.element_domain.spec_same(&other.element_domain)
    }

    fn member(&self, x: &Vec<A::Carrier>) -> (r: bool) {
        x.len() == self.size && self.element_domain.member(x)
    }

    fn same(&self, other: &Self) -> (r: bool) {
        self.size == other.size && self.element_domain.same(&other.element_domain)
    }

    proof fn lemma_same_members(&self, other: &Self, x: &Vec<A::Carrier>) {
        self.element_domain.lemma_same_members(&other.element_domain, x);
    }
}

/// Whether no key occurs twice among the entries.
pub open spec fn distinct_keys<K: Atom, V>(entries: Seq<(K, V)>) -> bool {
    forall|i: int, j: int|
        0 <= i < j < entries.len() ==> (#[trigger] entries[i]).0.key() != (#[trigger] entries[j]).0.key()
}

/// The keyed collections with keys from `key_domain` and values from
/// `value_domain`. A collection lists its entries in some order, and lists no
/// key twice.
pub struct MapDomain<DK, DV> {
    pub key_domain: DK,
    pub value_domain: DV,
}

impl<DK: Domain, DV: Domain> MapDomain<DK, DV> {
    pub fn new(key_domain: DK, value_domain: DV) -> (r: Self)
        ensures
            r.key_domain == key_domain,
            r.value_domain == value_domain,
    {
        MapDomain { key_domain, value_domain }
    }
}

impl<DK: Domain, DV: Domain> Domain for MapDomain<DK, DV> where DK::Carrier: Atom {
    type Carrier = Vec<(DK::Carrier, DV::Carrier)>;

    open spec fn spec_member(&self, x: &Vec<(DK::Carrier, DV::Carrier)>) -> bool {
        &&& distinct_keys(x@)
        &&& forall|i: int|
            0 <= i < x@.len() ==> self.key_domain.spec_member(&(#[trigger] x@[i]).0)
                && self.value_domain.spec_member(&x@[i].1)
    }

    open spec fn spec_same(&self, other: &Self) -> bool {
        self.key_domain.spec_same(&other.key_domain) && self.value_domain.spec_same(
            &other.value_domain,
        )
    }

    fn member(&self, x: &Vec<(DK::Carrier, DV::Carrier)>) -> (r: bool) {
        let mut i: usize = 0;
        while i < x.len()
            invariant
                i <= x@.len(),
                forall|a: int, b: int|
                    0 <= a < b < i ==> (#[trigger] x@[a]).0.key() != (#[trigger] x@[b]).0.key(),
                forall|a: int|
                    0 <= a < i ==> self.key_domain.spec_member(&(#[trigger] x@[a]).0)
                        && self.value_domain.spec_member(&x@[a].1),
            decreases x@.len() - i,
        {
            if !self.key_domain.member(&x[i].0) || !self.value_domain.member(&x[i].1) {
                return false;
            }
            let mut j: usize = 0;
            while j < i
                invariant
                    j <= i < x@.len(),
                    forall|a: int| 0 <= a < j ==> (#[trigger] x@[a]).0.key() != x@[i as int].0.key(),
                decreases i - j,
            {
                if x[j].0.same(&x[i].0) {
                    return false;
                }
                j += 1;
            }
            i += 1;
        }
        true
    }

    fn same(&self, other: &Self) -> (r: bool) {
        self.key_domain.same(&other.key_domain) && self.value_domain.same(&other.value_domain)
    }

    proof fn lemma_same_members(&self, other: &Self, x: &Vec<(DK::Carrier, DV::Carrier)>) {
        assert forall|i: int| 0 <= i < x@.len() implies (self.key_domain.spec_member(
            &(#[trigger] x@[i]).0,
        ) && self.value_domain.spec_member(&x@[i].1)) == (other.key_domain.spec_member(&x@[i].0)
            && other.value_domain.spec_member(&x@[i].1)) by {
            self.key_domain.lemma_same_members(&other.key_domain, &x@[i].0);
            self.value_domain.lemma_same_members(&other.value_domain, &x@[i].1);
        }
    }
}

} // verus!
