//! What the library asks of a scalar, and the words in which it speaks of
//! scalar arithmetic.
//!
//! A scalar's operators are taken as they are. Where a contract says what a
//! computed value is, it does so for scalars whose operators keep to their
//! specifications; for every scalar it says how many values come out and
//! which of them were left alone.

use vstd::prelude::*;
use vstd::std_specs::cmp::PartialOrdIs;
use vstd::std_specs::cmp::PartialOrdSpec;
use vstd::std_specs::convert::FromSpec;
use vstd::std_specs::ops::AddSpec;
use vstd::std_specs::ops::DivSpec;
use vstd::std_specs::ops::MulSpec;
use vstd::std_specs::ops::NegSpec;
use vstd::std_specs::ops::SubSpec;
use core::ops::Add;
use core::ops::Div;
use core::ops::Mul;
use core::ops::Neg;
use core::ops::Sub;

verus! {

/// A number that the simulation can compute with: it can be copied,
/// compared, made from a small integer, and put through the four operations
/// and negation. Every type that can do all this is a scalar.
pub trait Scalar: Copy + PartialOrd + Default + From<i8> + Add<Output = Self> + Sub<
    Output = Self,
> + Mul<Output = Self> + Div<Output = Self> + Neg<Output = Self> {

}

impl<T> Scalar for T where
    T: Copy + PartialOrd + Default + From<i8> + Add<Output = T> + Sub<Output = T> + Mul<
        Output = T,
    > + Div<Output = T> + Neg<Output = T>,
 {

}

/// The passage between counts and scalars. Nothing is promised of what a
/// method returns: the library's functions hold for every outcome.
pub trait Measure<T> {
    /// The scalar that stands for `count`.
    fn scalar(&self, count: usize) -> T;

    /// The whole part of `value`, as a count.
    fn whole(&self, value: T) -> usize;
}

/// `value` is the scalar that `measure` gives for `count`.
pub open spec fn counts<T, M: Measure<T>>(measure: &M, count: usize, value: T) -> bool {
    call_ensures(M::scalar, (measure, count), value)
}

/// `count` is the whole part that `measure` gives for `value`.
pub open spec fn floors<T, M: Measure<T>>(measure: &M, value: T, count: usize) -> bool {
    call_ensures(M::whole, (measure, value), count)
}

/// The scalar that stands for zero: the one that `T::default()` returns.
pub open spec fn zero<T: Default>() -> T {
    choose|z: T| call_ensures(T::default, (), z)
}

/// `T::default()` returns one and the same value at every call.
pub open spec fn zero_is_fixed<T: Default>() -> bool {
    forall|z: T| call_ensures(T::default, (), z) ==> z == zero::<T>()
}

/// The scalar that the small integer `n` converts into.
pub open spec fn small<T: From<i8>>(n: i8) -> T {
    T::from_spec(n)
}

/// Addition on `T` takes every pair of operands.
pub open spec fn adds_freely<T: Add<Output = T>>() -> bool {
    forall|a: T, b: T| #[trigger] a.add_req(b)
}

/// Subtraction on `T` takes every pair of operands.
pub open spec fn subtracts_freely<T: Sub<Output = T>>() -> bool {
    forall|a: T, b: T| #[trigger] a.sub_req(b)
}

/// Multiplication on `T` takes every pair of operands.
pub open spec fn multiplies_freely<T: Mul<Output = T>>() -> bool {
    forall|a: T, b: T| #[trigger] a.mul_req(b)
}

/// Division on `T` takes every pair of operands.
pub open spec fn divides_freely<T: Div<Output = T>>() -> bool {
    forall|a: T, b: T| #[trigger] a.div_req(b)
}

/// Negation on `T` takes every operand.
pub open spec fn negates_freely<T: Neg<Output = T>>() -> bool {
    forall|a: T| #[trigger] a.neg_req()
}

/// Every operation on `T` takes every operand: none overflows or fails.
pub open spec fn computes_freely<T: Scalar>() -> bool {
    &&& adds_freely::<T>()
    &&& subtracts_freely::<T>()
    &&& multiplies_freely::<T>()
    &&& divides_freely::<T>()
    &&& negates_freely::<T>()
}

/// What `a + b` is, where addition on `T` keeps to its specification.
pub open spec fn sum_of<T: Add<Output = T>>(a: T, b: T) -> T {
    a.add_spec(b)
}

/// What `a - b` is, where subtraction on `T` keeps to its specification.
pub open spec fn difference_of<T: Sub<Output = T>>(a: T, b: T) -> T {
    a.sub_spec(b)
}

/// What `a * b` is, where multiplication on `T` keeps to its specification.
pub open spec fn product_of<T: Mul<Output = T>>(a: T, b: T) -> T {
    a.mul_spec(b)
}

/// What `a / b` is, where division on `T` keeps to its specification.
pub open spec fn quotient_of<T: Div<Output = T>>(a: T, b: T) -> T {
    a.div_spec(b)
}

/// What `-a` is, where negation on `T` keeps to its specification.
pub open spec fn negative_of<T: Neg<Output = T>>(a: T) -> T {
    a.neg_spec()
}

/// Comparisons on `T` keep to the order that `T` specifies.
pub open spec fn compares_exactly<T: PartialOrd>() -> bool {
    T::obeys_partial_cmp_spec()
}

/// `a > b` in the order that `T` specifies.
pub open spec fn exceeds<T: PartialOrd>(a: T, b: T) -> bool {
    a.is_gt(&b)
}

/// `a < b` in the order that `T` specifies.
pub open spec fn precedes<T: PartialOrd>(a: T, b: T) -> bool {
    a.is_lt(&b)
}

/// `a >= b` in the order that `T` specifies.
pub open spec fn at_least<T: PartialOrd>(a: T, b: T) -> bool {
    a.is_ge(&b)
}

/// `a <= b` in the order that `T` specifies.
pub open spec fn at_most<T: PartialOrd>(a: T, b: T) -> bool {
    a.is_le(&b)
}

/// Every operation and comparison on `T`, and the conversion from a small
/// integer, keeps to its specification, and its zero is one value.
pub open spec fn computes_exactly<T: Scalar>() -> bool {
    &&& zero_is_fixed::<T>()
    &&& compares_exactly::<T>()
    &&& T::obeys_from_spec()
    &&& T::obeys_add_spec()
    &&& T::obeys_sub_spec()
    &&& T::obeys_mul_spec()
    &&& T::obeys_div_spec()
    &&& T::obeys_neg_spec()
}

/// The scalar that stands for zero.
pub fn zero_value<T: Default>() -> (z: T)
    ensures
        zero_is_fixed::<T>() ==> z == zero::<T>(),
{
    T::default()
}

/// The scalar that the small integer `n` converts into.
pub fn small_value<T: From<i8>>(n: i8) -> (value: T)
    ensures
        T::obeys_from_spec() ==> value == small::<T>(n),
{
    T::from(n)
}

} // verus!
