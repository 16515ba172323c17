use core::cmp::Ordering;
use core::ops::{Add, Div, Mul, Neg, Sub};
use vstd::prelude::*;
use vstd::std_specs::cmp::{PartialEqSpec, PartialOrdSpec};
use vstd::std_specs::convert::FromSpec;
use vstd::std_specs::ops::{AddSpec, DivSpec, MulSpec, NegSpec, SubSpec};

verus! {

/// The scalars of this library: any copyable type with the four arithmetic
/// operators, negation, comparison, and a conversion from small integers
/// that supplies the constants zero and one.
pub trait FloatTrait: Copy + PartialEq + PartialOrd + Add<Output = Self> + Sub<Output = Self> + Mul<
    Output = Self,
> + Div<Output = Self> + Neg<Output = Self> + From<u8> {

}

impl<T> FloatTrait for T where
    T: Copy + PartialEq + PartialOrd + Add<Output = T> + Sub<Output = T> + Mul<Output = T> + Div<
        Output = T,
    > + Neg<Output = T> + From<u8>,
 {

}

/// Holds of a scalar type whose operators accept every pair of operands and
/// return exactly what their specifications say. Every contract of this
/// library that speaks of computed values is stated for such a type.
pub open spec fn obeys_arithmetic<V: FloatTrait>() -> bool {
    &&& V::obeys_add_spec()
    &&& V::obeys_sub_spec()
    &&& V::obeys_mul_spec()
    &&& V::obeys_div_spec()
    &&& V::obeys_neg_spec()
    &&& V::obeys_eq_spec()
    &&& V::obeys_partial_cmp_spec()
    &&& V::obeys_from_spec()
    &&& forall|a: V, b: V| #[trigger] a.add_req(b)
    &&& forall|a: V, b: V| #[trigger] a.sub_req(b)
    &&& forall|a: V, b: V| #[trigger] a.mul_req(b)
    &&& forall|a: V, b: V| #[trigger] a.div_req(b)
    &&& forall|a: V| #[trigger] a.neg_req()
}

/// The additive identity.
pub open spec fn zero<V: FloatTrait>() -> V {
    V::from_spec(0u8)
}

/// The multiplicative identity.
pub open spec fn one<V: FloatTrait>() -> V {
    V::from_spec(1u8)
}

/// `v` compares equal to zero.
pub open spec fn is_zero<V: FloatTrait>(v: V) -> bool {
    v.eq_spec(&zero::<V>())
}

/// `a < b`.
pub open spec fn less<V: FloatTrait>(a: V, b: V) -> bool {
    a.partial_cmp_spec(&b) == Some(Ordering::Less)
}

/// `a > b`.
pub open spec fn greater<V: FloatTrait>(a: V, b: V) -> bool {
    a.partial_cmp_spec(&b) == Some(Ordering::Greater)
}

/// The absolute value: the operand, negated when it is below zero.
pub open spec fn magnitude<V: FloatTrait>(v: V) -> V {
    if less(v, zero::<V>()) {
        v.neg_spec()
    } else {
        v
    }
}

/// The magnitude of `value` is above the tolerance.
pub open spec fn significant<V: FloatTrait>(value: V, tolerance: V) -> bool {
    greater(magnitude(value), tolerance)
}

/// What a place holds after `new` was written to it over `old`: with a
/// threshold, a value whose magnitude is not above it is not written.
pub open spec fn written<V: FloatTrait>(old: V, new: V, threshold: Option<V>) -> V {
    match threshold {
        None => new,
        Some(tolerance) => if significant(new, tolerance) {
            new
        } else {
            old
        },
    }
}

/// `v` does not compare equal to itself.
pub open spec fn is_nan<V: FloatTrait>(v: V) -> bool {
    !v.eq_spec(&v)
}

/// `|1 - value / mirror| > rel_tol`: the two values differ by more than the
/// relative tolerance.
pub open spec fn mismatch<V: FloatTrait>(value: V, mirror: V, rel_tol: V) -> bool {
    greater(magnitude(one::<V>().sub_spec(value.div_spec(mirror))), rel_tol)
}

/// Zero.
pub fn zero_value<V: FloatTrait>() -> (r: V)
    requires
        obeys_arithmetic::<V>(),
    ensures
        r == zero::<V>(),
{
    V::from(0u8)
}

/// One.
pub fn one_value<V: FloatTrait>() -> (r: V)
    requires
        obeys_arithmetic::<V>(),
    ensures
        r == one::<V>(),
{
    V::from(1u8)
}

/// Whether `v` compares equal to zero.
pub fn is_zero_value<V: FloatTrait>(v: V) -> (r: bool)
    requires
        obeys_arithmetic::<V>(),
    ensures
        r == is_zero(v),
{
    v == V::from(0u8)
}

/// Whether `a < b`.
pub fn is_less<V: FloatTrait>(a: V, b: V) -> (r: bool)
    requires
        obeys_arithmetic::<V>(),
    ensures
        r == less(a, b),
{
    a < b
}

/// Whether `a > b`.
pub fn is_greater<V: FloatTrait>(a: V, b: V) -> (r: bool)
    requires
        obeys_arithmetic::<V>(),
    ensures
        r == greater(a, b),
{
    a > b
}

/// The absolute value of `v`.
pub fn magnitude_of<V: FloatTrait>(v: V) -> (r: V)
    requires
        obeys_arithmetic::<V>(),
    ensures
        r == magnitude(v),
{
    if v < V::from(0u8) {
        v.neg()
    } else {
        v
    }
}

/// Whether the magnitude of `value` is above the tolerance.
pub fn is_significant<V: FloatTrait>(value: V, tolerance: V) -> (r: bool)
    requires
        obeys_arithmetic::<V>(),
    ensures
        r == significant(value, tolerance),
{
    magnitude_of(value) > tolerance
}

/// What a place holds after `new` was written to it over `old`.
pub fn write_over<V: FloatTrait>(old: V, new: V, threshold: Option<V>) -> (r: V)
    requires
        obeys_arithmetic::<V>(),
    ensures
        r == written(old, new, threshold),
{
    match threshold {
        None => new,
        Some(tolerance) => if is_significant(new, tolerance) {
            new
        } else {
            old
        },
    }
}

/// Whether `v` does not compare equal to itself.
pub fn is_nan_value<V: FloatTrait>(v: V) -> (r: bool)
    requires
        obeys_arithmetic::<V>(),
    ensures
        r == is_nan(v),
{
    v != v
}

/// Whether the two values differ by more than the relative tolerance.
pub fn is_mismatch<V: FloatTrait>(value: V, mirror: V, rel_tol: V) -> (r: bool)
    requires
        obeys_arithmetic::<V>(),
    ensures
        r == mismatch(value, mirror, rel_tol),
{
    magnitude_of(V::from(1u8) - value / mirror) > rel_tol
}

} // verus!
