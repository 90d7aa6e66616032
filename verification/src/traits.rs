//! What the units ask of the values they are built from: an order on
//! distances and an order on the atoms of a dataset.

use vstd::prelude::*;
use crate::error::{Error, Fallible};
use crate::fixed::Fixed;

verus! {

/// A value that measures how far apart two datasets, or two output
/// distributions, are.
pub trait Distance: Sized {
    /// Whether the value is a legal distance: not negative.
    spec fn spec_valid(&self) -> bool;

    /// Whether `self` is at most `other`: a bound of `other` is then no
    /// tighter than a bound of `self`.
    spec fn spec_le(&self, other: &Self) -> bool;
}

/// A distance whose validity and order can be decided at run time.
pub trait TotalDistance: Distance {
    fn is_valid(&self) -> (r: bool)
        ensures
            r == self.spec_valid(),
    ;

    fn le(&self, other: &Self) -> (r: bool)
        ensures
            r == self.spec_le(other),
    ;
}

/// The distance of a metric that carries no information.
impl Distance for () {
    open spec fn spec_valid(&self) -> bool {
        true
    }

    open spec fn spec_le(&self, other: &Self) -> bool {
        true
    }
}

impl TotalDistance for () {
    fn is_valid(&self) -> (r: bool) {
        true
    }

    fn le(&self, other: &Self) -> (r: bool) {
        true
    }
}

/// A count of records.
impl Distance for u32 {
    open spec fn spec_valid(&self) -> bool {
        true
    }

    open spec fn spec_le(&self, other: &Self) -> bool {
        *self <= *other
    }
}

impl TotalDistance for u32 {
    fn is_valid(&self) -> (r: bool) {
        true
    }

    fn le(&self, other: &Self) -> (r: bool) {
        *self <= *other
    }
}

/// A distance between integers.
impl Distance for i64 {
    open spec fn spec_valid(&self) -> bool {
        *self >= 0
    }

    open spec fn spec_le(&self, other: &Self) -> bool {
        *self <= *other
    }
}

impl TotalDistance for i64 {
    fn is_valid(&self) -> (r: bool) {
        *self >= 0
    }

    fn le(&self, other: &Self) -> (r: bool) {
        *self <= *other
    }
}

impl Distance for Fixed {
    open spec fn spec_valid(&self) -> bool {
        self@ >= 0
    }

    open spec fn spec_le(&self, other: &Self) -> bool {
        self@ <= other@
    }
}

impl TotalDistance for Fixed {
    fn is_valid(&self) -> (r: bool) {
        !self.is_sign_negative()
    }

    fn le(&self, other: &Self) -> (r: bool) {
        Fixed::le(self, other)
    }
}

/// A pair of distances is ordered component by component.
impl<A: Distance, B: Distance> Distance for (A, B) {
    open spec fn spec_valid(&self) -> bool {
        self.0.spec_valid() && self.1.spec_valid()
    }

    open spec fn spec_le(&self, other: &Self) -> bool {
        self.0.spec_le(&other.0) && self.1.spec_le(&other.1)
    }
}

impl<A: TotalDistance, B: TotalDistance> TotalDistance for (A, B) {
    fn is_valid(&self) -> (r: bool) {
        self.0.is_valid() && self.1.is_valid()
    }

    fn le(&self, other: &Self) -> (r: bool) {
        self.0.le(&other.0) && self.1.le(&other.1)
    }
}

/// An atom of a dataset: a value of a totally ordered type, of which copies
/// can be made.
pub trait Atom: Sized + Copy {
    /// The position of the atom in the order of its type. Two atoms of one
    /// type are equal exactly if their keys are.
    spec fn key(&self) -> int;

    proof fn lemma_key_injective(a: Self, b: Self)
        requires
            a.key() == b.key(),
        ensures
            a == b,
    ;

    fn lt(&self, other: &Self) -> (r: bool)
        ensures
            r == (self.key() < other.key()),
    ;

    fn same(&self, other: &Self) -> (r: bool)
        ensures
            r == (self.key() == other.key()),
    ;
}

impl Atom for i64 {
    open spec fn key(&self) -> int {
        *self as int
    }

    proof fn lemma_key_injective(a: Self, b: Self) {
    }

    fn lt(&self, other: &Self) -> (r: bool) {
        *self < *other
    }

    fn same(&self, other: &Self) -> (r: bool) {
        *self == *other
    }
}

impl Atom for u32 {
    open spec fn key(&self) -> int {
        *self as int
    }

    proof fn lemma_key_injective(a: Self, b: Self) {
    }

    fn lt(&self, other: &Self) -> (r: bool) {
        *self < *other
    }

    fn same(&self, other: &Self) -> (r: bool) {
        *self == *other
    }
}

impl Atom for u64 {
    open spec fn key(&self) -> int {
        *self as int
    }

    proof fn lemma_key_injective(a: Self, b: Self) {
    }

    fn lt(&self, other: &Self) -> (r: bool) {
        *self < *other
    }

    fn same(&self, other: &Self) -> (r: bool) {
        *self == *other
    }
}

impl Atom for char {
    open spec fn key(&self) -> int {
        *self as int
    }

    proof fn lemma_key_injective(a: Self, b: Self) {
    }

    fn lt(&self, other: &Self) -> (r: bool) {
        *self < *other
    }

    fn same(&self, other: &Self) -> (r: bool) {
        *self == *other
    }
}

impl Atom for Fixed {
    open spec fn key(&self) -> int {
        self@
    }

    proof fn lemma_key_injective(a: Self, b: Self) {
    }

    fn lt(&self, other: &Self) -> (r: bool) {
        Fixed::lt(self, other)
    }

    fn same(&self, other: &Self) -> (r: bool) {
        self.bits == other.bits
    }
}

/// An atom that can be counted with: it has a zero and a sum, and can be
/// cast to a fixed-point number and back.
pub trait Number: Atom {
    /// Zero, whose key is zero.
    spec fn spec_zero() -> Self;

    /// The sum, or the failure that it is out of range.
    spec fn spec_plus(&self, other: &Self) -> Fallible<Self>;

    /// The number as a fixed-point number, or the failure that it is none.
    spec fn spec_to_fixed(&self) -> Fallible<Fixed>;

    /// The number of this type that is nearest to `v`.
    spec fn spec_from_fixed(v: Fixed) -> Fallible<Self>;

    fn zero() -> (r: Self)
        ensures
            r == Self::spec_zero(),
    ;

    fn plus(&self, other: &Self) -> (r: Fallible<Self>)
        ensures
            r == self.spec_plus(other),
    ;

    fn to_fixed(&self) -> (r: Fallible<Fixed>)
        ensures
            r == self.spec_to_fixed(),
    ;

    fn from_fixed(v: &Fixed) -> (r: Fallible<Self>)
        ensures
            r == Self::spec_from_fixed(*v),
    ;
}

impl Number for i64 {
    open spec fn spec_zero() -> i64 {
        0
    }

    open spec fn spec_plus(&self, other: &i64) -> Fallible<i64> {
        if i64::MIN <= *self + *other <= i64::MAX {
            Ok((*self + *other) as i64)
        } else {
            Err(Error::ArithmeticFailure)
        }
    }

    open spec fn spec_to_fixed(&self) -> Fallible<Fixed> {
        Fixed::spec_exact_int_cast(*self as int)
    }

    /// A fixed-point number goes to the nearest integer.
    open spec fn spec_from_fixed(v: Fixed) -> Fallible<i64> {
        Ok(v.spec_round() as i64)
    }

    fn zero() -> (r: i64) {
        0
    }

    fn plus(&self, other: &i64) -> (r: Fallible<i64>) {
        match self.checked_add(*other) {
            Some(sum) => Ok(sum),
            None => Err(Error::ArithmeticFailure),
        }
    }

    fn to_fixed(&self) -> (r: Fallible<Fixed>) {
        Fixed::exact_int_cast(*self)
    }

    fn from_fixed(v: &Fixed) -> (r: Fallible<i64>) {
        Ok(v.round())
    }
}

impl Number for Fixed {
    open spec fn spec_zero() -> Fixed {
        Fixed { bits: 0 }
    }

    open spec fn spec_plus(&self, other: &Fixed) -> Fallible<Fixed> {
        self.spec_add(other)
    }

    open spec fn spec_to_fixed(&self) -> Fallible<Fixed> {
        Ok(*self)
    }

    open spec fn spec_from_fixed(v: Fixed) -> Fallible<Fixed> {
        Ok(v)
    }

    fn zero() -> (r: Fixed) {
        Fixed::zero()
    }

    fn plus(&self, other: &Fixed) -> (r: Fallible<Fixed>) {
        self.inf_add(other)
    }

    fn to_fixed(&self) -> (r: Fallible<Fixed>) {
        Ok(*self)
    }

    fn from_fixed(v: &Fixed) -> (r: Fallible<Fixed>) {
        Ok(*v)
    }
}

} // verus!
