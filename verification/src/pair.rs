//! The closest rotations of two matrices, computed side by side.
//!
//! Both lanes go through the same operations, so they must agree on every branch. Where
//! they do not, there is no common result, and the two matrices are treated one by one.

use crate::constants::polar_epsilon;
use crate::polar::{
    closest_rotation_after, final_round, newton_round, newton_rounds, orthonormalized,
    oriented_column, rejected_column,
};
use crate::scalar::{half, one, zero, Scalar};
use crate::vector::{Mat3, Vec3};
use vstd::prelude::*;

verus! {

/// Two numbers side by side.
#[derive(Clone, Copy)]
pub struct Lanes<S> {
    pub first: S,
    pub second: S,
}

/// Two vectors side by side.
#[derive(Clone, Copy)]
pub struct Vec3x2<S> {
    pub x: Lanes<S>,
    pub y: Lanes<S>,
    pub z: Lanes<S>,
}

/// Two matrices side by side.
#[derive(Clone, Copy)]
pub struct Mat3x2<S> {
    pub x_axis: Vec3x2<S>,
    pub y_axis: Vec3x2<S>,
    pub z_axis: Vec3x2<S>,
}

impl<S: Scalar> Lanes<S> {
    pub fn add(self, other: Self) -> (result: Self)
        ensures
            result.first == self.first.plus(other.first),
            result.second == self.second.plus(other.second),
    {
        Lanes { first: self.first.add(other.first), second: self.second.add(other.second) }
    }

    pub fn sub(self, other: Self) -> (result: Self)
        ensures
            result.first == self.first.minus(other.first),
            result.second == self.second.minus(other.second),
    {
        Lanes { first: self.first.sub(other.first), second: self.second.sub(other.second) }
    }

    pub fn mul(self, other: Self) -> (result: Self)
        ensures
            result.first == self.first.times(other.first),
            result.second == self.second.times(other.second),
    {
        Lanes { first: self.first.mul(other.first), second: self.second.mul(other.second) }
    }

    pub fn neg(self) -> (result: Self)
        ensures
            result.first == self.first.negated(),
            result.second == self.second.negated(),
    {
        Lanes { first: self.first.neg(), second: self.second.neg() }
    }
}

impl<S: Scalar> Vec3x2<S> {
    /// The vector of the first lane.
    pub open spec fn first(self) -> Vec3<S> {
        Vec3 { x: self.x.first, y: self.y.first, z: self.z.first }
    }

    /// The vector of the second lane.
    pub open spec fn second(self) -> Vec3<S> {
        Vec3 { x: self.x.second, y: self.y.second, z: self.z.second }
    }

    pub fn from_lanes(first: Vec3<S>, second: Vec3<S>) -> (result: Self)
        ensures
            result.first() == first,
            result.second() == second,
    {
        Vec3x2 {
            x: Lanes { first: first.x, second: second.x },
            y: Lanes { first: first.y, second: second.y },
            z: Lanes { first: first.z, second: second.z },
        }
    }

    pub fn lanes(self) -> (result: (Vec3<S>, Vec3<S>))
        ensures
            result == (self.first(), self.second()),
    {
        (
            Vec3 { x: self.x.first, y: self.y.first, z: self.z.first },
            Vec3 { x: self.x.second, y: self.y.second, z: self.z.second },
        )
    }

    pub fn add(self, other: Self) -> (result: Self)
        ensures
            result.first() == self.first().plus(other.first()),
            result.second() == self.second().plus(other.second()),
    {
        Vec3x2 { x: self.x.add(other.x), y: self.y.add(other.y), z: self.z.add(other.z) }
    }

    pub fn sub(self, other: Self) -> (result: Self)
        ensures
            result.first() == self.first().minus(other.first()),
            result.second() == self.second().minus(other.second()),
    {
        Vec3x2 { x: self.x.sub(other.x), y: self.y.sub(other.y), z: self.z.sub(other.z) }
    }

    pub fn neg(self) -> (result: Self)
        ensures
            result.first() == self.first().negated(),
            result.second() == self.second().negated(),
    {
        Vec3x2 { x: self.x.neg(), y: self.y.neg(), z: self.z.neg() }
    }

    pub fn scale(self, scale: Lanes<S>) -> (result: Self)
        ensures
            result.first() == self.first().scaled(scale.first),
            result.second() == self.second().scaled(scale.second),
    {
        Vec3x2 { x: self.x.mul(scale), y: self.y.mul(scale), z: self.z.mul(scale) }
    }

    pub fn dot(self, other: Self) -> (result: Lanes<S>)
        ensures
            result.first == self.first().inner(other.first()),
            result.second == self.second().inner(other.second()),
    {
        self.x.mul(other.x).add(self.y.mul(other.y)).add(self.z.mul(other.z))
    }

    pub fn cross(self, other: Self) -> (result: Self)
        ensures
            result.first() == self.first().outer(other.first()),
            result.second() == self.second().outer(other.second()),
    {
        Vec3x2 {
            x: self.y.mul(other.z).sub(other.y.mul(self.z)),
            y: self.z.mul(other.x).sub(other.z.mul(self.x)),
            z: self.x.mul(other.y).sub(other.x.mul(self.y)),
        }
    }
}

impl<S: Scalar> Mat3x2<S> {
    /// The matrix of the first lane.
    pub open spec fn first(self) -> Mat3<S> {
        Mat3 {
            x_axis: self.x_axis.first(),
            y_axis: self.y_axis.first(),
            z_axis: self.z_axis.first(),
        }
    }

    /// The matrix of the second lane.
    pub open spec fn second(self) -> Mat3<S> {
        Mat3 {
            x_axis: self.x_axis.second(),
            y_axis: self.y_axis.second(),
            z_axis: self.z_axis.second(),
        }
    }

    pub fn from_lanes(first: Mat3<S>, second: Mat3<S>) -> (result: Self)
        ensures
            result.first() == first,
            result.second() == second,
    {
        Mat3x2 {
            x_axis: Vec3x2::from_lanes(first.x_axis, second.x_axis),
            y_axis: Vec3x2::from_lanes(first.y_axis, second.y_axis),
            z_axis: Vec3x2::from_lanes(first.z_axis, second.z_axis),
        }
    }

    pub fn lanes(self) -> (result: (Mat3<S>, Mat3<S>))
        ensures
            result == (self.first(), self.second()),
    {
        let (first_x, second_x) = self.x_axis.lanes();
        let (first_y, second_y) = self.y_axis.lanes();
        let (first_z, second_z) = self.z_axis.lanes();
        (
            Mat3::from_cols(first_x, first_y, first_z),
            Mat3::from_cols(second_x, second_y, second_z),
        )
    }

    pub fn determinant(self) -> (result: Lanes<S>)
        ensures
            result.first == self.first().volume(),
            result.second == self.second().volume(),
    {
        self.z_axis.dot(self.x_axis.cross(self.y_axis))
    }

    pub fn cofactors(self) -> (result: Self)
        ensures
            result.first() == self.first().cofactor(),
            result.second() == self.second().cofactor(),
    {
        Mat3x2 {
            x_axis: self.y_axis.cross(self.z_axis),
            y_axis: self.z_axis.cross(self.x_axis),
            z_axis: self.x_axis.cross(self.y_axis),
        }
    }

    pub fn add(self, other: Self) -> (result: Self)
        ensures
            result.first() == self.first().plus(other.first()),
            result.second() == self.second().plus(other.second()),
    {
        Mat3x2 {
            x_axis: self.x_axis.add(other.x_axis),
            y_axis: self.y_axis.add(other.y_axis),
            z_axis: self.z_axis.add(other.z_axis),
        }
    }

    pub fn sub(self, other: Self) -> (result: Self)
        ensures
            result.first() == self.first().minus(other.first()),
            result.second() == self.second().minus(other.second()),
    {
        Mat3x2 {
            x_axis: self.x_axis.sub(other.x_axis),
            y_axis: self.y_axis.sub(other.y_axis),
            z_axis: self.z_axis.sub(other.z_axis),
        }
    }

    pub fn scale(self, scale: Lanes<S>) -> (result: Self)
        ensures
            result.first() == self.first().scaled(scale.first),
            result.second() == self.second().scaled(scale.second),
    {
        Mat3x2 {
            x_axis: self.x_axis.scale(scale),
            y_axis: self.y_axis.scale(scale),
            z_axis: self.z_axis.scale(scale),
        }
    }
}

/// How the last round treats a determinant.
#[derive(Clone, Copy, PartialEq, Eq, Structural, Debug)]
pub enum FinalPolarBranch {
    Skip,
    Positive,
    Negative,
}

/// The branch of the last round, where the determinant is finite.
#[verifier::allow_in_spec]
pub fn final_polar_branch<S: Scalar>(determinant: S) -> (result: Option<FinalPolarBranch>)
    returns
        (if !determinant.finite() {
            None
        } else if !polar_epsilon::<S>().below(determinant.magnitude()) {
            Some(FinalPolarBranch::Skip)
        } else if zero::<S>().below(determinant) {
            Some(FinalPolarBranch::Positive)
        } else {
            Some(FinalPolarBranch::Negative)
        }),
{
    if !determinant.is_finite() {
        None
    } else if !polar_epsilon::<S>().lt(determinant.abs()) {
        Some(FinalPolarBranch::Skip)
    } else if zero::<S>().lt(determinant) {
        Some(FinalPolarBranch::Positive)
    } else {
        Some(FinalPolarBranch::Negative)
    }
}

/// The unit vectors of both lanes; nothing where neither lane has a direction, and an error
/// where only one has.
pub fn normalize_pair<S: Scalar>(vector: Vec3x2<S>) -> (result: Result<Option<Vec3x2<S>>, ()>)
    ensures
        match result {
            Ok(Some(unit)) => {
                &&& vector.first().has_direction()
                &&& vector.second().has_direction()
                &&& unit.first() == vector.first().normal()
                &&& unit.second() == vector.second().normal()
            },
            Ok(None) => !vector.first().has_direction() && !vector.second().has_direction(),
            Err(()) => vector.first().has_direction() != vector.second().has_direction(),
        },
{
    let length_squared = vector.dot(vector);
    let reciprocal = Lanes {
        first: one::<S>().div(length_squared.first.sqrt()),
        second: one::<S>().div(length_squared.second.sqrt()),
    };
    let first_valid = reciprocal.first.is_finite() && zero::<S>().lt(reciprocal.first);
    let second_valid = reciprocal.second.is_finite() && zero::<S>().lt(reciprocal.second);
    if first_valid && second_valid {
        Ok(Some(vector.scale(reciprocal)))
    } else if !first_valid && !second_valid {
        Ok(None)
    } else {
        Err(())
    }
}

/// How the columns of a matrix become orthonormal.
pub enum ColumnPath {
    /// The first column has no direction.
    NoFirst,
    /// What is left of the second column has no direction.
    NoSecond,
    /// The third column keeps its side.
    Kept,
    /// The third column changes its side.
    Flipped,
}

/// The branches that making a matrix orthonormal takes.
pub open spec fn column_path<S: Scalar>(matrix: Mat3<S>) -> ColumnPath {
    let x = matrix.x_axis.normal();
    let rejected = rejected_column(matrix, x);
    if !matrix.x_axis.has_direction() {
        ColumnPath::NoFirst
    } else if !rejected.has_direction() {
        ColumnPath::NoSecond
    } else if x.outer(rejected.normal()).inner(matrix.z_axis).below(zero()) {
        ColumnPath::Flipped
    } else {
        ColumnPath::Kept
    }
}

/// Both lanes made orthonormal, where they take the same branches.
pub fn orthonormalize_rotation_pair<S: Scalar>(rotation: Mat3x2<S>) -> (result: Option<Mat3x2<S>>)
    ensures
        result is Some <==> column_path(rotation.first()) == column_path(rotation.second()),
        result matches Some(pair) ==> {
            &&& pair.first() == orthonormalized(rotation.first())
            &&& pair.second() == orthonormalized(rotation.second())
        },
{
    let x = match normalize_pair(rotation.x_axis) {
        Ok(Some(x)) => x,
        Ok(None) => return Some(Mat3x2::from_lanes(Mat3::identity(), Mat3::identity())),
        Err(()) => return None,
    };
    let rejected = rotation.y_axis.sub(x.scale(x.dot(rotation.y_axis)));
    assert(rejected.first() == rejected_column(rotation.first(), x.first()));
    assert(rejected.second() == rejected_column(rotation.second(), x.second()));
    let y = match normalize_pair(rejected) {
        Ok(Some(y)) => y,
        Ok(None) => return Some(Mat3x2::from_lanes(Mat3::identity(), Mat3::identity())),
        Err(()) => return None,
    };
    let mut z = x.cross(y);
    let orientation = z.dot(rotation.z_axis);
    let first_flip = orientation.first.lt(zero());
    let second_flip = orientation.second.lt(zero());
    if first_flip != second_flip {
        return None;
    }
    if first_flip {
        z = z.neg();
    }
    assert(z.first() == oriented_column(rotation.first(), x.first(), y.first()));
    assert(z.second() == oriented_column(rotation.second(), x.second(), y.second()));
    Some(Mat3x2 { x_axis: x, y_axis: z.cross(x), z_axis: z })
}

/// Every branch that two rounds and the columns take on a matrix; nothing where a
/// determinant that decides one is not finite.
pub open spec fn polar_path<S: Scalar>(
    matrix: Mat3<S>,
) -> Option<(Option<FinalPolarBranch>, ColumnPath)> {
    if !matrix.volume().finite() {
        None
    } else if matrix.volume().magnitude().at_most(polar_epsilon()) {
        Some((None, column_path(matrix)))
    } else {
        let rounded = newton_round(matrix);
        match final_polar_branch(rounded.volume()) {
            None => None,
            Some(branch) => Some((Some(branch), column_path(final_round(rounded)))),
        }
    }
}

/// The closest rotations of two matrices after two rounds, where both take the same
/// branches and no determinant on the way is infinite or undefined.
pub fn closest_rotation_pair_2<S: Scalar>(first: Mat3<S>, second: Mat3<S>) -> (result: Option<
    (Mat3<S>, Mat3<S>),
>)
    ensures
        result is Some <==> polar_path(first) is Some && polar_path(first) == polar_path(second),
        result matches Some(rotations) ==> rotations == (
            closest_rotation_after(first, 2),
            closest_rotation_after(second, 2),
        ),
{
    proof {
        reveal_with_fuel(newton_rounds, 2);
    }
    let mut rotation = Mat3x2::from_lanes(first, second);
    let determinant = rotation.determinant();
    if !determinant.first.is_finite() || !determinant.second.is_finite() {
        return None;
    }
    let first_continue = !determinant.first.abs().le(polar_epsilon());
    let second_continue = !determinant.second.abs().le(polar_epsilon());
    if first_continue != second_continue {
        return None;
    }
    if first_continue {
        let cofactors = rotation.cofactors();
        let determinant = rotation.z_axis.dot(cofactors.z_axis);
        let inverse_determinant = Lanes {
            first: one::<S>().div(determinant.first),
            second: one::<S>().div(determinant.second),
        };
        rotation = rotation.add(cofactors.scale(inverse_determinant)).scale(
            Lanes { first: half(), second: half() },
        );
        assert(rotation.first() == newton_round(first));
        assert(rotation.second() == newton_round(second));
        let cofactors = rotation.cofactors();
        let determinant = rotation.z_axis.dot(cofactors.z_axis);
        let first_branch = match final_polar_branch(determinant.first) {
            Some(branch) => branch,
            None => return None,
        };
        let second_branch = match final_polar_branch(determinant.second) {
            Some(branch) => branch,
            None => return None,
        };
        if first_branch != second_branch {
            return None;
        }
        if first_branch != FinalPolarBranch::Skip {
            let scale = Lanes { first: determinant.first.abs(), second: determinant.second.abs() };
            rotation = if first_branch == FinalPolarBranch::Positive {
                rotation.scale(scale).add(cofactors)
            } else {
                rotation.scale(scale).sub(cofactors)
            };
        }
        assert(rotation.first() == final_round(newton_round(first)));
        assert(rotation.second() == final_round(newton_round(second)));
    }
    match orthonormalize_rotation_pair(rotation) {
        Some(pair) => Some(pair.lanes()),
        None => None,
    }
}

} // verus!
