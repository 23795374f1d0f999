//! What the rounds of the closest rotation do to a matrix, and what is made of its columns.

use crate::constants::polar_epsilon;
use crate::field::{
    exact, lemma_one, lemma_parts, lemma_product_associate, lemma_quotient, lemma_take_nothing,
    lemma_undo, lemma_zero,
};
use crate::least_laws::lemma_inner_plus;
use crate::order::{lemma_compare, lemma_opposite_order};
use crate::polar::{
    closest_rotation_after, newton_round, newton_rounds, oriented_column, orthonormalized,
    rejected_column,
};
use crate::rotation_laws::{
    is_rotation, lemma_direction, lemma_division_free, lemma_inner_negated, lemma_length,
    lemma_orthonormalized_is_rotation, lemma_outer_perpendicular, lemma_rooted,
    lemma_scaled_inner, lemma_triple, rooted,
};
use crate::scalar::{half, one, zero, Scalar};
use crate::vector::{Mat3, Vec3};
use vstd::prelude::*;

verus! {

/// Whether a matrix is the inverse of the transpose of another: its columns are perpendicular
/// to the other columns of that, and have one for inner product with their own.
pub open spec fn inverts_transpose<S: Scalar>(inverse: Mat3<S>, matrix: Mat3<S>) -> bool {
    &&& inverse.x_axis.inner(matrix.x_axis) == one::<S>()
    &&& inverse.x_axis.inner(matrix.y_axis) == zero::<S>()
    &&& inverse.x_axis.inner(matrix.z_axis) == zero::<S>()
    &&& inverse.y_axis.inner(matrix.x_axis) == zero::<S>()
    &&& inverse.y_axis.inner(matrix.y_axis) == one::<S>()
    &&& inverse.y_axis.inner(matrix.z_axis) == zero::<S>()
    &&& inverse.z_axis.inner(matrix.x_axis) == zero::<S>()
    &&& inverse.z_axis.inner(matrix.y_axis) == zero::<S>()
    &&& inverse.z_axis.inner(matrix.z_axis) == one::<S>()
}

/// A round makes the mean of a matrix and the inverse of its transpose: twice the outcome,
/// without the matrix, is that inverse.
pub proof fn lemma_round_averages<S: Scalar>(matrix: Mat3<S>)
    requires
        exact::<S>(),
        matrix.volume() != zero::<S>(),
    ensures
        ({
            let round = newton_round(matrix);
            inverts_transpose(round.plus(round).minus(matrix), matrix)
        }),
{
    let round = newton_round(matrix);
    let other = round.plus(round).minus(matrix);
    let inverse = matrix.inverse_transposed();
    lemma_doubled_vector(matrix.x_axis, inverse.x_axis);
    lemma_doubled_vector(matrix.y_axis, inverse.y_axis);
    lemma_doubled_vector(matrix.z_axis, inverse.z_axis);
    assert(other == inverse);
    lemma_inverse_inverts(matrix);
}

proof fn lemma_doubled_vector<S: Scalar>(a: Vec3<S>, b: Vec3<S>)
    requires
        exact::<S>(),
    ensures
        ({
            let mean = a.plus(b).scaled(half());
            mean.plus(mean).minus(a) == b
        }),
{
    lemma_parts(a.x.plus(b.x));
    lemma_parts(a.y.plus(b.y));
    lemma_parts(a.z.plus(b.z));
    lemma_undo(b.x, a.x);
    lemma_undo(b.y, a.y);
    lemma_undo(b.z, a.z);
}

proof fn lemma_inverse_inverts<S: Scalar>(matrix: Mat3<S>)
    requires
        exact::<S>(),
        matrix.volume() != zero::<S>(),
    ensures
        inverts_transpose(matrix.inverse_transposed(), matrix),
{
    let (x, y, z) = (matrix.x_axis, matrix.y_axis, matrix.z_axis);
    let volume = matrix.volume();
    let factor = one::<S>().over(volume);
    lemma_quotient(one(), volume);
    lemma_zero(factor);
    lemma_triple(z, x, y);
    lemma_triple(y, z, x);
    lemma_scaled_inner(y, z.outer(x), one());
    lemma_outer_perpendicular(y, z);
    lemma_outer_perpendicular(z, x);
    lemma_outer_perpendicular(x, y);
    lemma_scaled_inner(x, y.outer(z), factor);
    lemma_scaled_inner(y, y.outer(z), factor);
    lemma_scaled_inner(z, y.outer(z), factor);
    lemma_scaled_inner(x, z.outer(x), factor);
    lemma_scaled_inner(y, z.outer(x), factor);
    lemma_scaled_inner(z, z.outer(x), factor);
    lemma_scaled_inner(x, x.outer(y), factor);
    lemma_scaled_inner(y, x.outer(y), factor);
    lemma_scaled_inner(z, x.outer(y), factor);
}

/// In exact arithmetic every round of the closest rotation is a round on a matrix whose
/// determinant counts; without one, and without rounds, only the columns are made orthonormal.
pub proof fn lemma_rotation_by_rounds<S: Scalar>(matrix: Mat3<S>, rounds: nat)
    requires
        rooted::<S>(),
    ensures
        S::fraction(1, 1000000000000).below(matrix.volume().magnitude()) ==> closest_rotation_after(
            matrix,
            rounds + 1,
        ) == closest_rotation_after(newton_round(matrix), rounds),
        matrix.volume().magnitude().at_most(S::fraction(1, 1000000000000)) ==> closest_rotation_after(
            matrix,
            rounds,
        ) == orthonormalized(matrix),
        closest_rotation_after(matrix, 0) == orthonormalized(matrix),
{
    lemma_rooted::<S>();
    lemma_division_free(matrix, rounds);
    lemma_division_free(matrix, rounds + 1);
    lemma_division_free(newton_round(matrix), rounds);
    lemma_compare(polar_epsilon(), matrix.volume().magnitude());
    assert(newton_rounds(matrix, rounds + 1).0 == if matrix.volume().magnitude().at_most(
        polar_epsilon(),
    ) {
        matrix
    } else {
        newton_rounds(newton_round(matrix), rounds).0
    });
}

/// In exact arithmetic columns that are made orthonormal make the rotation whose first column
/// leads where the first did, whose third is perpendicular to the first two, and whose third
/// leads to the side of the third.
pub proof fn lemma_columns_followed<S: Scalar>(matrix: Mat3<S>)
    requires
        rooted::<S>(),
        matrix.x_axis.squared() != zero::<S>(),
        rejected_column(matrix, matrix.x_axis.normal()).squared() != zero::<S>(),
    ensures
        ({
            let rotation = orthonormalized(matrix);
            &&& is_rotation(rotation)
            &&& rotation.x_axis.scaled(matrix.x_axis.squared().root()) == matrix.x_axis
            &&& rotation.z_axis.inner(matrix.x_axis) == zero::<S>()
            &&& rotation.z_axis.inner(matrix.y_axis) == zero::<S>()
            &&& zero::<S>().at_most(rotation.z_axis.inner(matrix.z_axis))
        }),
{
    lemma_rooted::<S>();
    let rotation = orthonormalized(matrix);
    let x = matrix.x_axis.normal();
    let rejected = rejected_column(matrix, x);
    let y = rejected.normal();
    let flat = x.outer(y);
    lemma_direction(matrix.x_axis);
    lemma_direction(rejected);
    lemma_orthonormalized_is_rotation(matrix);
    lemma_unit_stretched(matrix.x_axis);
    lemma_unit_stretched(rejected);
    let length = matrix.x_axis.squared().root();
    let rest = rejected.squared().root();
    let z = rotation.z_axis;
    assert(z == oriented_column(matrix, x, y));
    lemma_scaled_inner(z, x, length);
    lemma_zero(length);
    lemma_zero(rest);
    assert(z.inner(matrix.x_axis) == zero::<S>());
    lemma_outer_perpendicular(x, y);
    lemma_inner_negated(flat, y);
    lemma_inner_negated(flat, matrix.z_axis);
    lemma_take_nothing(zero::<S>());
    lemma_scaled_inner(z, y, rest);
    assert(z.inner(rejected) == zero::<S>());
    let along = x.scaled(x.inner(matrix.y_axis));
    lemma_scaled_inner(z, x, x.inner(matrix.y_axis));
    lemma_zero(x.inner(matrix.y_axis));
    lemma_inner_plus(rejected, along, z);
    lemma_undo(matrix.y_axis.x, along.x);
    lemma_undo(matrix.y_axis.y, along.y);
    lemma_undo(matrix.y_axis.z, along.z);
    assert(matrix.y_axis == rejected.plus(along));
    let side = flat.inner(matrix.z_axis);
    lemma_compare(side, zero());
    if side.below(zero()) {
        lemma_opposite_order(side, zero());
    }
}

/// A vector is its direction times its length.
pub proof fn lemma_unit_stretched<S: Scalar>(v: Vec3<S>)
    requires
        rooted::<S>(),
        v.squared() != zero::<S>(),
    ensures
        v.normal().scaled(v.squared().root()) == v,
{
    lemma_rooted::<S>();
    let length = v.squared().root();
    let inverse = v.inverse_length();
    lemma_length(v);
    lemma_compare(zero(), length);
    lemma_quotient(one(), length);
    lemma_product_associate(v.x, inverse, length);
    lemma_product_associate(v.y, inverse, length);
    lemma_product_associate(v.z, inverse, length);
    lemma_one(v.x);
    lemma_one(v.y);
    lemma_one(v.z);
}

} // verus!
