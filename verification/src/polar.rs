//! The rotation closest to a matrix, one matrix at a time or two side by side.

use crate::constants::{polar_epsilon, POLAR_NEWTON_ITERATIONS};
use crate::scalar::{half, one, zero, Scalar};
use crate::vector::{Mat3, Vec3};
use vstd::prelude::*;

verus! {

/// One round of Newton's iteration: the mean of the matrix and its inverse transpose.
pub open spec fn newton_round<S: Scalar>(matrix: Mat3<S>) -> Mat3<S> {
    matrix.plus(matrix.inverse_transposed()).scaled(half())
}

/// What up to `rounds` rounds make of a matrix, and whether no determinant that counts as
/// zero stopped them.
pub open spec fn newton_rounds<S: Scalar>(matrix: Mat3<S>, rounds: nat) -> (Mat3<S>, bool)
    decreases rounds,
{
    if rounds == 0 {
        (matrix, true)
    } else if matrix.volume().magnitude().at_most(polar_epsilon()) {
        (matrix, false)
    } else {
        newton_rounds(newton_round(matrix), (rounds - 1) as nat)
    }
}

/// The last round without its division and its halving, which only scale all columns by
/// one factor.
pub open spec fn final_round<S: Scalar>(matrix: Mat3<S>) -> Mat3<S> {
    let determinant = matrix.volume();
    let scale = determinant.magnitude();
    if polar_epsilon::<S>().below(scale) {
        if zero::<S>().below(determinant) {
            matrix.scaled(scale).plus(matrix.cofactor())
        } else {
            matrix.scaled(scale).minus(matrix.cofactor())
        }
    } else {
        matrix
    }
}

/// The part of the second column that is perpendicular to `x`.
pub open spec fn rejected_column<S: Scalar>(matrix: Mat3<S>, x: Vec3<S>) -> Vec3<S> {
    matrix.y_axis.minus(x.scaled(x.inner(matrix.y_axis)))
}

/// The third column of the orthonormal matrix whose first is `x` and whose second starts
/// out as `y`, on the side of the given matrix's third column.
pub open spec fn oriented_column<S: Scalar>(matrix: Mat3<S>, x: Vec3<S>, y: Vec3<S>) -> Vec3<S> {
    let z = x.outer(y);
    if z.inner(matrix.z_axis).below(zero()) {
        z.negated()
    } else {
        z
    }
}

/// The columns made orthonormal one after the other; the unit matrix where one of the first
/// two has no direction.
pub open spec fn orthonormalized<S: Scalar>(matrix: Mat3<S>) -> Mat3<S> {
    let x = matrix.x_axis.normal();
    let rejected = rejected_column(matrix, x);
    if matrix.x_axis.has_direction() && rejected.has_direction() {
        let z = oriented_column(matrix, x, rejected.normal());
        Mat3 { x_axis: x, y_axis: z.outer(x), z_axis: z }
    } else {
        Mat3::unit()
    }
}

/// The rotation that `iterations` rounds give, the last of them without division.
pub open spec fn closest_rotation_after<S: Scalar>(matrix: Mat3<S>, iterations: nat) -> Mat3<S> {
    if iterations == 0 {
        orthonormalized(matrix)
    } else {
        let (rounded, pending) = newton_rounds(matrix, (iterations - 1) as nat);
        orthonormalized(
            if pending {
                final_round(rounded)
            } else {
                rounded
            },
        )
    }
}

pub fn closest_rotation<S: Scalar>(matrix: Mat3<S>) -> (result: Mat3<S>)
    ensures
        result == closest_rotation_after(matrix, POLAR_NEWTON_ITERATIONS as nat),
{
    closest_rotation_with_iterations::<S, POLAR_NEWTON_ITERATIONS>(matrix)
}

pub fn closest_rotation_with_iterations<S: Scalar, const ITERATIONS: usize>(
    matrix: Mat3<S>,
) -> (result: Mat3<S>)
    ensures
        result == closest_rotation_after(matrix, ITERATIONS as nat),
{
    let mut rotation = matrix;
    let mut final_round_pending = true;
    let mut round: usize = 1;
    while round < ITERATIONS
        invariant_except_break
            final_round_pending,
            1 <= round,
            ITERATIONS > 0 ==> round <= ITERATIONS,
            ITERATIONS > 0 ==> newton_rounds(rotation, (ITERATIONS - round) as nat)
                == newton_rounds(matrix, (ITERATIONS - 1) as nat),
            ITERATIONS == 0 ==> rotation == matrix,
        ensures
            ITERATIONS > 0 ==> (rotation, final_round_pending) == newton_rounds(
                matrix,
                (ITERATIONS - 1) as nat,
            ),
            ITERATIONS == 0 ==> rotation == matrix,
        decreases ITERATIONS - round,
    {
        if rotation.determinant().abs().le(polar_epsilon()) {
            final_round_pending = false;
            break;
        }
        rotation = rotation.add(rotation.inverse_transpose()).scale(half());
        round = round + 1;
    }
    if ITERATIONS > 0 && final_round_pending {
        let cofactors = rotation.cofactors();
        let determinant = rotation.z_axis.dot(cofactors.z_axis);
        let scale = determinant.abs();
        if polar_epsilon::<S>().lt(scale) {
            rotation = if zero::<S>().lt(determinant) {
                rotation.scale(scale).add(cofactors)
            } else {
                rotation.scale(scale).sub(cofactors)
            };
        }
    }
    orthonormalize_rotation(rotation)
}

pub fn orthonormalize_rotation<S: Scalar>(rotation: Mat3<S>) -> (result: Mat3<S>)
    ensures
        result == orthonormalized(rotation),
{
    let x = match rotation.x_axis.try_normalize() {
        Some(x) => x,
        None => return Mat3::identity(),
    };
    let rejected = rotation.y_axis.sub(x.scale(x.dot(rotation.y_axis)));
    let y = match rejected.try_normalize() {
        Some(y) => y,
        None => return Mat3::identity(),
    };
    let mut z = x.cross(y);
    if z.dot(rotation.z_axis).lt(zero()) {
        z = z.neg();
    }
    Mat3 { x_axis: x, y_axis: z.cross(x), z_axis: z }
}

/// The rotation that `iterations` rounds give, each of them with its division.
pub fn closest_rotation_with_divisive_final<S: Scalar, const ITERATIONS: usize>(
    matrix: Mat3<S>,
) -> (result: Mat3<S>)
    ensures
        result == orthonormalized(newton_rounds(matrix, ITERATIONS as nat).0),
{
    let mut rotation = matrix;
    let mut round: usize = 0;
    while round < ITERATIONS
        invariant_except_break
            round <= ITERATIONS,
            newton_rounds(rotation, (ITERATIONS - round) as nat) == newton_rounds(
                matrix,
                ITERATIONS as nat,
            ),
        ensures
            rotation == newton_rounds(matrix, ITERATIONS as nat).0,
        decreases ITERATIONS - round,
    {
        if rotation.determinant().abs().le(polar_epsilon()) {
            break;
        }
        rotation = rotation.add(rotation.inverse_transpose()).scale(half());
        round = round + 1;
    }
    orthonormalize_rotation(rotation)
}

} // verus!
