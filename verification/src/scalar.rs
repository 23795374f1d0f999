//! The arithmetic that the solver runs on.
//!
//! Rounded arithmetic obeys few algebraic laws, so none is assumed: every operation
//! is a function of its operands and nothing more is known of it. What is proved about
//! the solver therefore holds to the last bit in any arithmetic, and two formulas count
//! as equal only where they perform the same operations in the same order.

use crate::vector::Vec3;
use vstd::prelude::*;

verus! {

/// A number type whose operations are functions of their operands.
///
/// Each executable method is paired with the spec function that it computes.
pub trait Scalar: Copy {
    /// The sum.
    spec fn plus(self, other: Self) -> Self;

    fn add(self, other: Self) -> (result: Self)
        ensures
            result == self.plus(other),
    ;

    /// The difference.
    spec fn minus(self, other: Self) -> Self;

    fn sub(self, other: Self) -> (result: Self)
        ensures
            result == self.minus(other),
    ;

    /// The product.
    spec fn times(self, other: Self) -> Self;

    fn mul(self, other: Self) -> (result: Self)
        ensures
            result == self.times(other),
    ;

    /// The quotient; every divisor has one, zero included.
    spec fn over(self, other: Self) -> Self;

    fn div(self, other: Self) -> (result: Self)
        ensures
            result == self.over(other),
    ;

    /// The number with its sign turned round.
    spec fn negated(self) -> Self;

    fn neg(self) -> (result: Self)
        ensures
            result == self.negated(),
    ;

    /// The absolute value.
    spec fn magnitude(self) -> Self;

    fn abs(self) -> (result: Self)
        ensures
            result == self.magnitude(),
    ;

    /// The square root.
    spec fn root(self) -> Self;

    fn sqrt(self) -> (result: Self)
        ensures
            result == self.root(),
    ;

    /// The power with the given exponent.
    spec fn power(self, exponent: Self) -> Self;

    fn powf(self, exponent: Self) -> (result: Self)
        ensures
            result == self.power(exponent),
    ;

    /// Whether the number is less than the other; false for unordered operands.
    spec fn below(self, other: Self) -> bool;

    fn lt(self, other: Self) -> (result: bool)
        ensures
            result == self.below(other),
    ;

    /// Whether the number is less than or equal to the other; false for unordered operands.
    spec fn at_most(self, other: Self) -> bool;

    fn le(self, other: Self) -> (result: bool)
        ensures
            result == self.at_most(other),
    ;

    /// Whether the number is neither infinite nor undefined.
    spec fn finite(self) -> bool;

    fn is_finite(self) -> (result: bool)
        ensures
            result == self.finite(),
    ;

    /// The bit pattern that stores the number.
    spec fn bits(self) -> u64;

    fn to_bits(self) -> (result: u64)
        ensures
            result == self.bits(),
    ;

    /// The number nearest to `numerator / denominator`.
    spec fn fraction(numerator: i64, denominator: i64) -> Self;

    fn from_fraction(numerator: i64, denominator: i64) -> (result: Self)
        requires
            denominator > 0,
        ensures
            result == Self::fraction(numerator, denominator),
    ;

    /// `numerator / denominator` rounded to single precision first.
    spec fn single_fraction(numerator: i64, denominator: i64) -> Self;

    fn from_single_fraction(numerator: i64, denominator: i64) -> (result: Self)
        requires
            denominator > 0,
        ensures
            result == Self::single_fraction(numerator, denominator),
    ;

    /// The number nearest to a count.
    spec fn count(value: usize) -> Self;

    fn from_count(value: usize) -> (result: Self)
        ensures
            result == Self::count(value),
    ;

    /// The greatest number of all.
    spec fn unbounded() -> Self;

    fn infinity() -> (result: Self)
        ensures
            result == Self::unbounded(),
    ;

    /// `point` turned by the shortest rotation that takes the x axis to the unit vector
    /// `direction`.
    spec fn turned(direction: Vec3<Self>, point: Vec3<Self>) -> Vec3<Self>;

    fn turn_from_x(direction: Vec3<Self>, point: Vec3<Self>) -> (result: Vec3<Self>)
        ensures
            result == Self::turned(direction, point),
    ;
}

/// Zero.
#[verifier::allow_in_spec]
pub fn zero<S: Scalar>() -> (result: S)
    returns
        S::fraction(0, 1),
{
    S::from_fraction(0, 1)
}

/// One.
#[verifier::allow_in_spec]
pub fn one<S: Scalar>() -> (result: S)
    returns
        S::fraction(1, 1),
{
    S::from_fraction(1, 1)
}

/// One half.
#[verifier::allow_in_spec]
pub fn half<S: Scalar>() -> (result: S)
    returns
        S::fraction(1, 2),
{
    S::from_fraction(1, 2)
}

/// One quarter.
#[verifier::allow_in_spec]
pub fn quarter<S: Scalar>() -> (result: S)
    returns
        S::fraction(1, 4),
{
    S::from_fraction(1, 4)
}

/// `value` brought into the interval from zero to one; an unordered value stays as it is.
#[verifier::allow_in_spec]
pub fn clamp_to_unit<S: Scalar>(value: S) -> (result: S)
    returns
        (if value.below(zero()) {
            zero()
        } else if one::<S>().below(value) {
            one()
        } else {
            value
        }),
{
    if value.lt(zero()) {
        zero()
    } else if one::<S>().lt(value) {
        one()
    } else {
        value
    }
}

} // verus!
