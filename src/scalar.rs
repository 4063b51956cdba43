use vstd::prelude::*;

verus! {

/// A number type that the matrix engine computes with.
///
/// Each operation is described by a spec function, so that the matrix and
/// network contracts can say exactly which scalar operations produce each
/// entry of a result, and in which order they are combined.
pub trait Scalar: Sized + Copy {
    /// The additive identity.
    spec fn zero_spec() -> Self;

    /// The multiplicative identity.
    spec fn one_spec() -> Self;

    spec fn plus_spec(a: Self, b: Self) -> Self;

    spec fn minus_spec(a: Self, b: Self) -> Self;

    spec fn times_spec(a: Self, b: Self) -> Self;

    /// When two values count as equal for matrix comparison.
    spec fn same_spec(a: Self, b: Self) -> bool;

    fn zero() -> (r: Self)
        ensures
            r == Self::zero_spec(),
    ;

    fn one() -> (r: Self)
        ensures
            r == Self::one_spec(),
    ;

    fn plus(a: Self, b: Self) -> (r: Self)
        ensures
            r == Self::plus_spec(a, b),
    ;

    fn minus(a: Self, b: Self) -> (r: Self)
        ensures
            r == Self::minus_spec(a, b),
    ;

    fn times(a: Self, b: Self) -> (r: Self)
        ensures
            r == Self::times_spec(a, b),
    ;

    fn same(a: Self, b: Self) -> (r: bool)
        ensures
            r == Self::same_spec(a, b),
    ;
}

/// Two's-complement integers with wrapping arithmetic.
impl Scalar for i64 {
    open spec fn zero_spec() -> i64 {
        0
    }

    open spec fn one_spec() -> i64 {
        1
    }

    open spec fn plus_spec(a: i64, b: i64) -> i64 {
        a.wrapping_add(b)
    }

    open spec fn minus_spec(a: i64, b: i64) -> i64 {
        a.wrapping_sub(b)
    }

    open spec fn times_spec(a: i64, b: i64) -> i64 {
        a.wrapping_mul(b)
    }

    open spec fn same_spec(a: i64, b: i64) -> bool {
        a == b
    }

    fn zero() -> (r: i64) {
        0
    }

    fn one() -> (r: i64) {
        1
    }

    fn plus(a: i64, b: i64) -> (r: i64) {
        a.wrapping_add(b)
    }

    fn minus(a: i64, b: i64) -> (r: i64) {
        a.wrapping_sub(b)
    }

    fn times(a: i64, b: i64) -> (r: i64) {
        a.wrapping_mul(b)
    }

    fn same(a: i64, b: i64) -> (r: bool) {
        a == b
    }
}

} // verus!
