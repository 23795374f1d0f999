//! Vectors and matrices of three dimensions, built from the scalar operations in a fixed
//! order.

use crate::scalar::{one, zero, Scalar};
use vstd::prelude::*;

verus! {

/// A vector of three components.
#[derive(Clone, Copy)]
pub struct Vec3<S> {
    pub x: S,
    pub y: S,
    pub z: S,
}

/// A matrix of three columns.
#[derive(Clone, Copy)]
pub struct Mat3<S> {
    pub x_axis: Vec3<S>,
    pub y_axis: Vec3<S>,
    pub z_axis: Vec3<S>,
}

impl<S: Scalar> Vec3<S> {
    pub fn new(x: S, y: S, z: S) -> (result: Self)
        ensures
            result == (Vec3 { x, y, z }),
    {
        Vec3 { x, y, z }
    }

    /// The vector whose components all equal `value`.
    pub open spec fn all(value: S) -> Self {
        Vec3 { x: value, y: value, z: value }
    }

    pub fn splat(value: S) -> (result: Self)
        ensures
            result == Self::all(value),
    {
        Vec3 { x: value, y: value, z: value }
    }

    /// The zero vector.
    pub open spec fn origin() -> Self {
        Self::all(zero())
    }

    pub fn zero() -> (result: Self)
        ensures
            result == Self::origin(),
    {
        Self::splat(zero())
    }

    /// The unit vector along x.
    pub open spec fn x_unit() -> Self {
        Vec3 { x: one(), y: zero(), z: zero() }
    }

    pub fn unit_x() -> (result: Self)
        ensures
            result == Self::x_unit(),
    {
        Vec3 { x: one(), y: zero(), z: zero() }
    }

    /// The unit vector along y.
    pub open spec fn y_unit() -> Self {
        Vec3 { x: zero(), y: one(), z: zero() }
    }

    pub fn unit_y() -> (result: Self)
        ensures
            result == Self::y_unit(),
    {
        Vec3 { x: zero(), y: one(), z: zero() }
    }

    /// The unit vector along z.
    pub open spec fn z_unit() -> Self {
        Vec3 { x: zero(), y: zero(), z: one() }
    }

    pub fn unit_z() -> (result: Self)
        ensures
            result == Self::z_unit(),
    {
        Vec3 { x: zero(), y: zero(), z: one() }
    }

    /// The componentwise sum.
    pub open spec fn plus(self, other: Self) -> Self {
        Vec3 { x: self.x.plus(other.x), y: self.y.plus(other.y), z: self.z.plus(other.z) }
    }

    pub fn add(self, other: Self) -> (result: Self)
        ensures
            result == self.plus(other),
    {
        Vec3 { x: self.x.add(other.x), y: self.y.add(other.y), z: self.z.add(other.z) }
    }

    /// The componentwise difference.
    pub open spec fn minus(self, other: Self) -> Self {
        Vec3 { x: self.x.minus(other.x), y: self.y.minus(other.y), z: self.z.minus(other.z) }
    }

    pub fn sub(self, other: Self) -> (result: Self)
        ensures
            result == self.minus(other),
    {
        Vec3 { x: self.x.sub(other.x), y: self.y.sub(other.y), z: self.z.sub(other.z) }
    }

    /// Every component multiplied by `factor`.
    pub open spec fn scaled(self, factor: S) -> Self {
        Vec3 { x: self.x.times(factor), y: self.y.times(factor), z: self.z.times(factor) }
    }

    pub fn scale(self, factor: S) -> (result: Self)
        ensures
            result == self.scaled(factor),
    {
        Vec3 { x: self.x.mul(factor), y: self.y.mul(factor), z: self.z.mul(factor) }
    }

    /// Every component divided by `divisor`.
    pub open spec fn over(self, divisor: S) -> Self {
        Vec3 { x: self.x.over(divisor), y: self.y.over(divisor), z: self.z.over(divisor) }
    }

    pub fn div(self, divisor: S) -> (result: Self)
        ensures
            result == self.over(divisor),
    {
        Vec3 { x: self.x.div(divisor), y: self.y.div(divisor), z: self.z.div(divisor) }
    }

    /// Every component negated.
    pub open spec fn negated(self) -> Self {
        Vec3 { x: self.x.negated(), y: self.y.negated(), z: self.z.negated() }
    }

    pub fn neg(self) -> (result: Self)
        ensures
            result == self.negated(),
    {
        Vec3 { x: self.x.neg(), y: self.y.neg(), z: self.z.neg() }
    }

    /// The absolute values of the components.
    pub open spec fn magnitudes(self) -> Self {
        Vec3 { x: self.x.magnitude(), y: self.y.magnitude(), z: self.z.magnitude() }
    }

    pub fn abs(self) -> (result: Self)
        ensures
            result == self.magnitudes(),
    {
        Vec3 { x: self.x.abs(), y: self.y.abs(), z: self.z.abs() }
    }

    /// The lesser of each pair of components; the second of an unordered pair.
    pub open spec fn lesser(self, other: Self) -> Self {
        Vec3 {
            x: if self.x.below(other.x) { self.x } else { other.x },
            y: if self.y.below(other.y) { self.y } else { other.y },
            z: if self.z.below(other.z) { self.z } else { other.z },
        }
    }

    pub fn min(self, other: Self) -> (result: Self)
        ensures
            result == self.lesser(other),
    {
        Vec3 {
            x: if self.x.lt(other.x) { self.x } else { other.x },
            y: if self.y.lt(other.y) { self.y } else { other.y },
            z: if self.z.lt(other.z) { self.z } else { other.z },
        }
    }

    /// The greater of each pair of components; the second of an unordered pair.
    pub open spec fn greater(self, other: Self) -> Self {
        Vec3 {
            x: if other.x.below(self.x) { self.x } else { other.x },
            y: if other.y.below(self.y) { self.y } else { other.y },
            z: if other.z.below(self.z) { self.z } else { other.z },
        }
    }

    pub fn max(self, other: Self) -> (result: Self)
        ensures
            result == self.greater(other),
    {
        Vec3 {
            x: if other.x.lt(self.x) { self.x } else { other.x },
            y: if other.y.lt(self.y) { self.y } else { other.y },
            z: if other.z.lt(self.z) { self.z } else { other.z },
        }
    }

    /// The inner product, summed from the left.
    pub open spec fn inner(self, other: Self) -> S {
        self.x.times(other.x).plus(self.y.times(other.y)).plus(self.z.times(other.z))
    }

    pub fn dot(self, other: Self) -> (result: S)
        ensures
            result == self.inner(other),
    {
        self.x.mul(other.x).add(self.y.mul(other.y)).add(self.z.mul(other.z))
    }

    /// The vector product.
    pub open spec fn outer(self, other: Self) -> Self {
        Vec3 {
            x: self.y.times(other.z).minus(other.y.times(self.z)),
            y: self.z.times(other.x).minus(other.z.times(self.x)),
            z: self.x.times(other.y).minus(other.x.times(self.y)),
        }
    }

    pub fn cross(self, other: Self) -> (result: Self)
        ensures
            result == self.outer(other),
    {
        Vec3 {
            x: self.y.mul(other.z).sub(other.y.mul(self.z)),
            y: self.z.mul(other.x).sub(other.z.mul(self.x)),
            z: self.x.mul(other.y).sub(other.x.mul(self.y)),
        }
    }

    /// The square of the length.
    pub open spec fn squared(self) -> S {
        self.inner(self)
    }

    pub fn length_squared(self) -> (result: S)
        ensures
            result == self.squared(),
    {
        self.dot(self)
    }

    /// The reciprocal of the length.
    pub open spec fn inverse_length(self) -> S {
        one::<S>().over(self.squared().root())
    }

    pub fn length_recip(self) -> (result: S)
        ensures
            result == self.inverse_length(),
    {
        one::<S>().div(self.length_squared().sqrt())
    }

    /// The vector multiplied by the reciprocal of its length, whatever that is.
    pub open spec fn normal(self) -> Self {
        self.scaled(self.inverse_length())
    }

    pub fn normalize(self) -> (result: Self)
        ensures
            result == self.normal(),
    {
        self.scale(self.length_recip())
    }

    /// Whether the length has a finite and positive reciprocal.
    pub open spec fn has_direction(self) -> bool {
        self.inverse_length().finite() && zero::<S>().below(self.inverse_length())
    }

    /// The unit vector of the same direction, where there is one.
    pub fn try_normalize(self) -> (result: Option<Self>)
        ensures
            result == (if self.has_direction() { Some(self.normal()) } else { None }),
    {
        let reciprocal = self.length_recip();
        if reciprocal.is_finite() && zero::<S>().lt(reciprocal) {
            Some(self.scale(reciprocal))
        } else {
            None
        }
    }

    /// The unit vector of the same direction, or zero where there is none.
    pub open spec fn normal_or_origin(self) -> Self {
        if self.has_direction() {
            self.normal()
        } else {
            Self::origin()
        }
    }

    pub fn normalize_or_zero(self) -> (result: Self)
        ensures
            result == self.normal_or_origin(),
    {
        match self.try_normalize() {
            Some(unit) => unit,
            None => Self::zero(),
        }
    }
}

impl<S: Scalar> Mat3<S> {
    pub fn from_cols(x_axis: Vec3<S>, y_axis: Vec3<S>, z_axis: Vec3<S>) -> (result: Self)
        ensures
            result == (Mat3 { x_axis, y_axis, z_axis }),
    {
        Mat3 { x_axis, y_axis, z_axis }
    }

    /// The unit matrix.
    pub open spec fn unit() -> Self {
        Mat3 { x_axis: Vec3::x_unit(), y_axis: Vec3::y_unit(), z_axis: Vec3::z_unit() }
    }

    pub fn identity() -> (result: Self)
        ensures
            result == Self::unit(),
    {
        Mat3 { x_axis: Vec3::unit_x(), y_axis: Vec3::unit_y(), z_axis: Vec3::unit_z() }
    }

    /// The determinant, as the triple product that starts from the first two columns.
    pub open spec fn volume(self) -> S {
        self.z_axis.inner(self.x_axis.outer(self.y_axis))
    }

    pub fn determinant(self) -> (result: S)
        ensures
            result == self.volume(),
    {
        self.z_axis.dot(self.x_axis.cross(self.y_axis))
    }

    /// The matrix of cofactors.
    pub open spec fn cofactor(self) -> Self {
        Mat3 {
            x_axis: self.y_axis.outer(self.z_axis),
            y_axis: self.z_axis.outer(self.x_axis),
            z_axis: self.x_axis.outer(self.y_axis),
        }
    }

    pub fn cofactors(self) -> (result: Self)
        ensures
            result == self.cofactor(),
    {
        Mat3 {
            x_axis: self.y_axis.cross(self.z_axis),
            y_axis: self.z_axis.cross(self.x_axis),
            z_axis: self.x_axis.cross(self.y_axis),
        }
    }

    /// Every component multiplied by `factor`.
    pub open spec fn scaled(self, factor: S) -> Self {
        Mat3 {
            x_axis: self.x_axis.scaled(factor),
            y_axis: self.y_axis.scaled(factor),
            z_axis: self.z_axis.scaled(factor),
        }
    }

    pub fn scale(self, factor: S) -> (result: Self)
        ensures
            result == self.scaled(factor),
    {
        Mat3 {
            x_axis: self.x_axis.scale(factor),
            y_axis: self.y_axis.scale(factor),
            z_axis: self.z_axis.scale(factor),
        }
    }

    /// The componentwise sum.
    pub open spec fn plus(self, other: Self) -> Self {
        Mat3 {
            x_axis: self.x_axis.plus(other.x_axis),
            y_axis: self.y_axis.plus(other.y_axis),
            z_axis: self.z_axis.plus(other.z_axis),
        }
    }

    pub fn add(self, other: Self) -> (result: Self)
        ensures
            result == self.plus(other),
    {
        Mat3 {
            x_axis: self.x_axis.add(other.x_axis),
            y_axis: self.y_axis.add(other.y_axis),
            z_axis: self.z_axis.add(other.z_axis),
        }
    }

    /// The componentwise difference.
    pub open spec fn minus(self, other: Self) -> Self {
        Mat3 {
            x_axis: self.x_axis.minus(other.x_axis),
            y_axis: self.y_axis.minus(other.y_axis),
            z_axis: self.z_axis.minus(other.z_axis),
        }
    }

    pub fn sub(self, other: Self) -> (result: Self)
        ensures
            result == self.minus(other),
    {
        Mat3 {
            x_axis: self.x_axis.sub(other.x_axis),
            y_axis: self.y_axis.sub(other.y_axis),
            z_axis: self.z_axis.sub(other.z_axis),
        }
    }

    /// The transpose of the inverse: the cofactors divided by the determinant.
    pub open spec fn inverse_transposed(self) -> Self {
        self.cofactor().scaled(one::<S>().over(self.volume()))
    }

    pub fn inverse_transpose(self) -> (result: Self)
        ensures
            result == self.inverse_transposed(),
    {
        let cofactors = self.cofactors();
        let determinant = self.z_axis.dot(cofactors.z_axis);
        cofactors.scale(one::<S>().div(determinant))
    }
}

} // verus!
