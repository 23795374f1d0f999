//! In exact arithmetic the closest rotation is a rotation, and the last of its rounds needs no
//! division.

use crate::constants::{contact_epsilon, polar_epsilon};
use crate::field::{
    exact, lemma_associate, lemma_commute, lemma_difference, lemma_difference_of_sums,
    lemma_distribute, lemma_distribute_difference, lemma_distribute_left, lemma_exchange_factors,
    lemma_negated_product, lemma_negation, lemma_one, lemma_parts, lemma_product_associate,
    lemma_product_commute, lemma_quotient, lemma_take_nothing, lemma_undo, lemma_zero,
};
use crate::order::{
    lemma_chain, lemma_compare, lemma_magnitude, lemma_ordered_is_exact, lemma_part_of_sum,
    lemma_scale_both, lemma_sign, lemma_square, lemma_turn_difference, ordered,
};
use crate::polar::{
    closest_rotation_after, final_round, newton_round, newton_rounds, orthonormalized,
    oriented_column, rejected_column,
};
use crate::scalar::{half, one, zero, Scalar};
use crate::vector::{Mat3, Vec3};
use vstd::prelude::*;

verus! {

/// A number that is not negative has a root that is not negative.
pub open spec fn root_squares<S: Scalar>(a: S) -> bool {
    zero::<S>().at_most(a) ==> zero::<S>().at_most(a.root()) && a.root().times(a.root()) == a
}

/// No number is without bound.
pub open spec fn number_ends<S: Scalar>(a: S) -> bool {
    a.finite()
}

/// Whether the arithmetic is exact and ordered and has roots. What comes of dividing one by
/// zero counts as no length, and no threshold is negative.
#[verifier::opaque]
pub open spec fn rooted<S: Scalar>() -> bool {
    &&& ordered::<S>()
    &&& forall|a: S| #[trigger] root_squares(a)
    &&& forall|a: S| #[trigger] number_ends(a)
    &&& zero::<S>() != one::<S>()
    &&& !zero::<S>().below(one::<S>().over(zero()))
    &&& zero::<S>().at_most(polar_epsilon())
    &&& zero::<S>().at_most(contact_epsilon())
    &&& zero::<S>().below(S::fraction(9, 10))
}

pub proof fn lemma_rooted<S: Scalar>()
    requires
        rooted::<S>(),
    ensures
        ordered::<S>(),
        exact::<S>(),
        zero::<S>() != one::<S>(),
        !zero::<S>().below(one::<S>().over(zero())),
        zero::<S>().at_most(polar_epsilon()),
        zero::<S>().at_most(contact_epsilon()),
        zero::<S>().below(S::fraction(9, 10)),
        zero::<S>().below(one()),
{
    reveal(rooted);
    lemma_ordered_is_exact::<S>();
    lemma_square(one::<S>());
    lemma_one(one::<S>());
    lemma_compare(zero::<S>(), one());
}

pub proof fn lemma_root<S: Scalar>(a: S)
    requires
        rooted::<S>(),
        zero::<S>().at_most(a),
    ensures
        zero::<S>().at_most(a.root()),
        a.root().times(a.root()) == a,
{
    reveal(rooted);
    assert(root_squares(a));
}

proof fn lemma_ends<S: Scalar>(a: S)
    requires
        rooted::<S>(),
    ensures
        a.finite(),
{
    reveal(rooted);
    assert(number_ends(a));
}

/// A product is zero only where one of its factors is.
pub proof fn lemma_no_product_is_zero<S: Scalar>(a: S, b: S)
    requires
        exact::<S>(),
        a != zero::<S>(),
        a.times(b) == zero::<S>(),
    ensures
        b == zero::<S>(),
{
    let inverse = one::<S>().over(a);
    lemma_quotient(one(), a);
    lemma_product_associate(inverse, a, b);
    lemma_one(b);
    lemma_zero(inverse);
}

/// Numbers that are not negative are equal where their squares are.
pub proof fn lemma_equal_squares<S: Scalar>(a: S, b: S)
    requires
        ordered::<S>(),
        zero::<S>().at_most(a),
        a.at_most(b),
        a.times(a) == b.times(b),
    ensures
        a == b,
{
    lemma_ordered_is_exact::<S>();
    lemma_chain(zero(), a, b);
    lemma_scale_both(a, b, a);
    lemma_scale_both(a, b, b);
    lemma_compare(a.times(a), a.times(b));
    if a == zero::<S>() {
        lemma_zero(a);
        if b != zero::<S>() {
            lemma_no_product_is_zero(b, b);
        }
    } else {
        lemma_distribute_difference(b, a, a);
        lemma_difference(a.times(a), a.times(a));
        lemma_zero(a.times(a));
        lemma_no_product_is_zero(a, b.minus(a));
        lemma_undo(b, a);
        lemma_take_nothing(a);
    }
}

/// A number that is neither negative nor zero is above zero.
pub proof fn lemma_positive<S: Scalar>(a: S)
    requires
        ordered::<S>(),
        zero::<S>().at_most(a),
    ensures
        zero::<S>().below(a) <==> a != zero::<S>(),
{
    lemma_compare(zero(), a);
}

/// The reciprocal of a number above zero is above zero.
pub proof fn lemma_reciprocal_positive<S: Scalar>(a: S)
    requires
        ordered::<S>(),
        zero::<S>() != one::<S>(),
        zero::<S>().below(a),
    ensures
        zero::<S>().below(one::<S>().over(a)),
{
    lemma_ordered_is_exact::<S>();
    let inverse = one::<S>().over(a);
    lemma_compare(zero(), a);
    lemma_compare(zero(), inverse);
    lemma_square(one::<S>());
    lemma_one(one::<S>());
    lemma_compare(zero(), one::<S>());
    if inverse.at_most(zero()) {
        lemma_scale_both(inverse, zero(), a);
        lemma_quotient(one(), a);
        lemma_zero(a);
    }
}

/// The reciprocal of a product is the product of the reciprocals.
pub proof fn lemma_reciprocal_product<S: Scalar>(a: S, b: S)
    requires
        exact::<S>(),
        a != zero::<S>(),
        b != zero::<S>(),
    ensures
        one::<S>().over(a.times(b)) == one::<S>().over(a).times(one::<S>().over(b)),
{
    let (i, j) = (one::<S>().over(a), one::<S>().over(b));
    let product = a.times(b);
    let inverse = one::<S>().over(product);
    if product == zero::<S>() {
        lemma_no_product_is_zero(a, b);
    }
    lemma_quotient(one(), a);
    lemma_quotient(one(), b);
    lemma_quotient(one(), product);
    assert(product.times(i.times(j)) == one::<S>()) by {
        lemma_exchange_pairs(a, b, i, j);
        lemma_one(one::<S>());
    }
    lemma_product_associate(inverse, product, i.times(j));
    lemma_one(inverse);
    lemma_one(i.times(j));
}

/// A product of two products does not depend on which factors come together.
pub proof fn lemma_exchange_pairs<S: Scalar>(a: S, b: S, c: S, d: S)
    requires
        exact::<S>(),
    ensures
        a.times(b).times(c.times(d)) == a.times(c).times(b.times(d)),
{
    lemma_product_associate(a, b, c.times(d));
    lemma_product_associate(b, c, d);
    lemma_product_commute(b, c);
    lemma_product_associate(c, b, d);
    lemma_product_associate(a, c, b.times(d));
}

/// A factor of one vector is a factor of the inner product.
pub proof fn lemma_scaled_inner<S: Scalar>(u: Vec3<S>, v: Vec3<S>, c: S)
    requires
        exact::<S>(),
    ensures
        u.inner(v.scaled(c)) == u.inner(v).times(c),
        v.scaled(c).inner(u) == u.inner(v).times(c),
        u.inner(v) == v.inner(u),
{
    lemma_product_associate(u.x, v.x, c);
    lemma_product_associate(u.y, v.y, c);
    lemma_product_associate(u.z, v.z, c);
    lemma_product_commute(u.x, v.x.times(c));
    lemma_product_commute(u.y, v.y.times(c));
    lemma_product_commute(u.z, v.z.times(c));
    lemma_product_commute(u.x, v.x);
    lemma_product_commute(u.y, v.y);
    lemma_product_commute(u.z, v.z);
    lemma_distribute(u.x.times(v.x), u.y.times(v.y), c);
    lemma_distribute(u.x.times(v.x).plus(u.y.times(v.y)), u.z.times(v.z), c);
}

pub proof fn lemma_scaled_squared<S: Scalar>(v: Vec3<S>, c: S)
    requires
        exact::<S>(),
    ensures
        v.scaled(c).squared() == v.squared().times(c.times(c)),
{
    lemma_scaled_inner(v.scaled(c), v, c);
    lemma_scaled_inner(v, v, c);
    lemma_product_associate(v.squared(), c, c);
}

/// No vector has a negative square.
pub proof fn lemma_squared<S: Scalar>(v: Vec3<S>)
    requires
        ordered::<S>(),
    ensures
        zero::<S>().at_most(v.squared()),
{
    lemma_square(v.x);
    lemma_square(v.y);
    lemma_square(v.z);
    lemma_part_of_sum(v.x.times(v.x), v.y.times(v.y));
    lemma_part_of_sum(v.x.times(v.x).plus(v.y.times(v.y)), v.z.times(v.z));
}

/// The length of a vector whose square is not zero.
pub proof fn lemma_length<S: Scalar>(v: Vec3<S>)
    requires
        rooted::<S>(),
    ensures
        v.squared().root().times(v.squared().root()) == v.squared(),
        zero::<S>().at_most(v.squared().root()),
        v.squared() != zero::<S>() ==> zero::<S>().below(v.squared().root()),
        v.squared() == zero::<S>() ==> v.squared().root() == zero::<S>(),
{
    lemma_rooted::<S>();
    lemma_squared(v);
    let length = v.squared().root();
    lemma_root(v.squared());
    lemma_positive(length);
    lemma_zero(length);
    if v.squared() == zero::<S>() && length != zero::<S>() {
        lemma_no_product_is_zero(length, length);
    }
}

/// A vector has a direction where its square is not zero.
pub proof fn lemma_direction<S: Scalar>(v: Vec3<S>)
    requires
        rooted::<S>(),
    ensures
        v.has_direction() <==> v.squared() != zero::<S>(),
{
    lemma_rooted::<S>();
    lemma_length(v);
    lemma_ends(v.inverse_length());
    if v.squared() != zero::<S>() {
        lemma_reciprocal_positive(v.squared().root());
    }
}

/// A direction is a unit vector.
pub proof fn lemma_unit_normal<S: Scalar>(v: Vec3<S>)
    requires
        rooted::<S>(),
        v.has_direction(),
    ensures
        v.normal().squared() == one::<S>(),
{
    lemma_rooted::<S>();
    lemma_direction(v);
    lemma_length(v);
    let length = v.squared().root();
    let inverse = v.inverse_length();
    lemma_compare(zero(), length);
    lemma_scaled_squared(v, inverse);
    lemma_exchange_pairs(length, length, inverse, inverse);
    lemma_quotient(one(), length);
    lemma_one(one::<S>());
}

/// Stretching a vector leaves its direction.
pub proof fn lemma_stretched_normal<S: Scalar>(v: Vec3<S>, c: S)
    requires
        rooted::<S>(),
        zero::<S>().below(c),
    ensures
        v.scaled(c).has_direction() == v.has_direction(),
        v.has_direction() ==> v.scaled(c).normal() == v.normal(),
{
    lemma_rooted::<S>();
    lemma_compare(zero(), c);
    lemma_scaled_squared(v, c);
    lemma_direction(v);
    lemma_direction(v.scaled(c));
    let length = v.squared().root();
    lemma_length(v);
    lemma_zero(c.times(c));
    if v.has_direction() {
        let stretched = v.scaled(c).squared().root();
        lemma_compare(zero(), length);
        lemma_length(v.scaled(c));
        assert(stretched == length.times(c)) by {
            lemma_sign(length, c);
            lemma_exchange_pairs(length, c, length, c);
            lemma_compare(stretched, length.times(c));
            if stretched.at_most(length.times(c)) {
                lemma_equal_squares(stretched, length.times(c));
            } else {
                lemma_equal_squares(length.times(c), stretched);
            }
        }
        if v.scaled(c).squared() == zero::<S>() {
            lemma_no_product_is_zero(length, c);
        }
        lemma_reciprocal_product(length, c);
        let (inverse, factor) = (v.inverse_length(), one::<S>().over(c));
        lemma_quotient(one(), c);
        lemma_stretched_coordinate(v.x, c, inverse, factor);
        lemma_stretched_coordinate(v.y, c, inverse, factor);
        lemma_stretched_coordinate(v.z, c, inverse, factor);
    }
}

proof fn lemma_stretched_coordinate<S: Scalar>(a: S, c: S, inverse: S, factor: S)
    requires
        exact::<S>(),
        c.times(factor) == one::<S>(),
    ensures
        a.times(c).times(inverse.times(factor)) == a.times(inverse),
{
    lemma_exchange_pairs(a, c, inverse, factor);
    lemma_one(a.times(inverse));
}

/// Stretching a matrix leaves the orthonormal matrix that its columns lead to.
pub proof fn lemma_stretched_orthonormalized<S: Scalar>(matrix: Mat3<S>, c: S)
    requires
        rooted::<S>(),
        zero::<S>().below(c),
    ensures
        orthonormalized(matrix.scaled(c)) == orthonormalized(matrix),
{
    lemma_rooted::<S>();
    let x = matrix.x_axis.normal();
    let y = matrix.y_axis;
    let part = x.inner(y);
    let rejected = rejected_column(matrix, x);
    lemma_stretched_normal(matrix.x_axis, c);
    assert(rejected_column(matrix.scaled(c), x) == rejected.scaled(c)) by {
        lemma_scaled_inner(x, y, c);
        lemma_product_associate(x.x, part, c);
        lemma_product_associate(x.y, part, c);
        lemma_product_associate(x.z, part, c);
        lemma_distribute_difference(y.x, x.x.times(part), c);
        lemma_distribute_difference(y.y, x.y.times(part), c);
        lemma_distribute_difference(y.z, x.z.times(part), c);
    }
    lemma_stretched_normal(rejected, c);
    let side = x.outer(rejected.normal()).inner(matrix.z_axis);
    lemma_scaled_inner(x.outer(rejected.normal()), matrix.z_axis, c);
    assert(side.times(c).below(zero()) == side.below(zero())) by {
        lemma_compare(zero(), c);
        lemma_compare(zero(), side);
        lemma_compare(zero(), side.times(c));
        lemma_zero(c);
        if zero::<S>().at_most(side) {
            lemma_sign(side, c);
        } else {
            lemma_scale_both(side, zero(), c);
            if side.times(c) == zero::<S>() {
                lemma_product_commute(side, c);
                lemma_no_product_is_zero(c, side);
            }
        }
    }
}

/// One coordinate of a round with and without its division.
proof fn lemma_last_coordinate<S: Scalar>(a: S, b: S, determinant: S)
    requires
        ordered::<S>(),
        determinant != zero::<S>(),
    ensures
        ({
            let scale = determinant.magnitude();
            let stretched = a.plus(b.times(one::<S>().over(determinant))).times(half()).times(
                scale.plus(scale),
            );
            if zero::<S>().below(determinant) {
                stretched == a.times(scale).plus(b)
            } else {
                stretched == a.times(scale).minus(b)
            }
        }),
{
    lemma_ordered_is_exact::<S>();
    let scale = determinant.magnitude();
    let inverse = one::<S>().over(determinant);
    let sum = a.plus(b.times(inverse));
    lemma_compare(zero(), determinant);
    lemma_magnitude(determinant);
    lemma_quotient(one(), determinant);
    assert(sum.times(half()).times(scale.plus(scale)) == sum.times(scale)) by {
        lemma_distribute_left(scale, scale, sum.times(half()));
        lemma_exchange_factors(sum, half(), scale);
        lemma_parts(sum.times(scale));
    }
    lemma_distribute(a, b.times(inverse), scale);
    lemma_product_associate(b, inverse, scale);
    if zero::<S>().below(determinant) {
        lemma_one(b);
    } else {
        lemma_negated_product(inverse, determinant);
        lemma_negated_product(b, one());
        lemma_one(b);
        lemma_difference(a.times(scale), b);
    }
}

/// The last round without its division and its halving stretches the matrix of the whole
/// round.
pub proof fn lemma_last_round<S: Scalar>(matrix: Mat3<S>)
    requires
        ordered::<S>(),
        zero::<S>().at_most(polar_epsilon()),
        polar_epsilon::<S>().below(matrix.volume().magnitude()),
    ensures
        ({
            let scale = matrix.volume().magnitude();
            &&& final_round(matrix) == newton_round(matrix).scaled(scale.plus(scale))
            &&& zero::<S>().below(scale.plus(scale))
        }),
{
    lemma_ordered_is_exact::<S>();
    let d = matrix.volume();
    let scale = d.magnitude();
    let (m, k) = (matrix, matrix.cofactor());
    lemma_compare(polar_epsilon(), scale);
    lemma_chain(zero(), polar_epsilon(), scale);
    lemma_magnitude(d);
    lemma_take_nothing(zero::<S>());
    lemma_compare(zero(), d);
    assert(scale != zero::<S>());
    assert(d != zero::<S>());
    lemma_part_of_sum(scale, scale);
    lemma_compare(zero(), scale.plus(scale));
    lemma_compare(zero(), scale);
    lemma_last_coordinate(m.x_axis.x, k.x_axis.x, d);
    lemma_last_coordinate(m.x_axis.y, k.x_axis.y, d);
    lemma_last_coordinate(m.x_axis.z, k.x_axis.z, d);
    lemma_last_coordinate(m.y_axis.x, k.y_axis.x, d);
    lemma_last_coordinate(m.y_axis.y, k.y_axis.y, d);
    lemma_last_coordinate(m.y_axis.z, k.y_axis.z, d);
    lemma_last_coordinate(m.z_axis.x, k.z_axis.x, d);
    lemma_last_coordinate(m.z_axis.y, k.z_axis.y, d);
    lemma_last_coordinate(m.z_axis.z, k.z_axis.z, d);
}

/// The rounds up to the last, and the last.
proof fn lemma_rounds_split<S: Scalar>(matrix: Mat3<S>, rounds: nat)
    ensures
        ({
            let (before, pending) = newton_rounds(matrix, rounds);
            newton_rounds(matrix, rounds + 1) == (if pending {
                newton_rounds(before, 1)
            } else {
                (before, false)
            })
        }),
    decreases rounds,
{
    if rounds > 0 && !matrix.volume().magnitude().at_most(polar_epsilon()) {
        lemma_rounds_split(newton_round(matrix), (rounds - 1) as nat);
    }
}

/// In exact arithmetic the rotation is the one that rounds with a division each give.
pub proof fn lemma_division_free<S: Scalar>(matrix: Mat3<S>, iterations: nat)
    requires
        rooted::<S>(),
    ensures
        closest_rotation_after(matrix, iterations) == orthonormalized(
            newton_rounds(matrix, iterations).0,
        ),
{
    lemma_rooted::<S>();
    if iterations > 0 {
        let rounds = (iterations - 1) as nat;
        lemma_rounds_split(matrix, rounds);
        let (before, pending) = newton_rounds(matrix, rounds);
        let scale = before.volume().magnitude();
        lemma_compare(polar_epsilon(), scale);
        reveal_with_fuel(newton_rounds, 2);
        if pending && polar_epsilon::<S>().below(scale) {
            lemma_last_round(before);
            lemma_stretched_orthonormalized(newton_round(before), scale.plus(scale));
        }
    }
}

/// Three differences add up to the difference of two sums.
proof fn lemma_three_differences<S: Scalar>(a: S, b: S, c: S, d: S, e: S, f: S)
    requires
        exact::<S>(),
    ensures
        a.minus(b).plus(c.minus(d)).plus(e.minus(f)) == a.plus(c).plus(e).minus(
            b.plus(d).plus(f),
        ),
{
    lemma_difference_of_sums(a, c, b, d);
    lemma_difference_of_sums(a.plus(c), e, b.plus(d), f);
}

/// A sum of three numbers does not depend on which comes first.
proof fn lemma_rotate_sum<S: Scalar>(a: S, b: S, c: S)
    requires
        exact::<S>(),
    ensures
        a.plus(b).plus(c) == b.plus(c).plus(a),
{
    lemma_associate(a, b, c);
    lemma_commute(a, b.plus(c));
}

/// A term on both sides of a difference cancels.
proof fn lemma_shared_term<S: Scalar>(shared: S, a: S, b: S)
    requires
        exact::<S>(),
    ensures
        shared.plus(a).minus(shared.plus(b)) == a.minus(b),
{
    lemma_difference_of_sums(shared, a, shared, b);
    lemma_difference(shared, shared);
    lemma_zero(shared);
    lemma_take_nothing(a.minus(b));
}

/// A product of three numbers does not depend on their order.
proof fn lemma_three_factors<S: Scalar>(a: S, b: S, c: S)
    requires
        exact::<S>(),
    ensures
        a.times(b).times(c) == a.times(b.times(c)),
        a.times(b).times(c) == a.times(c.times(b)),
        a.times(b).times(c) == b.times(a).times(c),
        a.times(b).times(c) == b.times(c).times(a),
        a.times(b).times(c) == c.times(b).times(a),
        a.times(b).times(c) == a.times(c).times(b),
        a.times(b).times(c) == c.times(a).times(b),
        a.times(b).times(c) == c.times(a.times(b)),
        a.times(b).times(c) == b.times(a.times(c)),
        a.times(b).times(c) == b.times(c.times(a)),
        a.times(b).times(c) == c.times(b.times(a)),
{
    lemma_product_commute(a, b);
    lemma_product_commute(b, c);
    lemma_product_commute(a, c);
    lemma_product_associate(a, b, c);
    lemma_product_associate(b, c, a);
    lemma_product_associate(c, a, b);
    lemma_product_associate(b, a, c);
    lemma_product_associate(c, b, a);
    lemma_product_associate(a, c, b);
    lemma_product_commute(a, b.times(c));
    lemma_product_commute(b, a.times(c));
    lemma_product_commute(c, a.times(b));
}

/// The vector product with its factors exchanged is the opposite.
pub proof fn lemma_outer_turned<S: Scalar>(u: Vec3<S>, v: Vec3<S>)
    requires
        exact::<S>(),
    ensures
        u.outer(v) == v.outer(u).negated(),
{
    lemma_turn_difference(v.y.times(u.z), u.y.times(v.z));
    lemma_turn_difference(v.z.times(u.x), u.z.times(v.x));
    lemma_turn_difference(v.x.times(u.y), u.x.times(v.y));
}

/// The vector product of an opposite is the opposite of the vector product.
pub proof fn lemma_outer_negated<S: Scalar>(u: Vec3<S>, v: Vec3<S>)
    requires
        exact::<S>(),
    ensures
        u.negated().outer(v) == u.outer(v).negated(),
        u.outer(v.negated()) == u.outer(v).negated(),
{
    lemma_opposite_difference(u.y, v.z, v.y, u.z);
    lemma_opposite_difference(u.z, v.x, v.z, u.x);
    lemma_opposite_difference(u.x, v.y, v.x, u.y);
}

proof fn lemma_opposite_difference<S: Scalar>(a: S, b: S, c: S, d: S)
    requires
        exact::<S>(),
    ensures
        a.negated().times(b).minus(c.times(d.negated())) == a.times(b).minus(
            c.times(d),
        ).negated(),
        a.times(b.negated()).minus(c.negated().times(d)) == a.times(b).minus(
            c.times(d),
        ).negated(),
{
    let (p, q) = (a.times(b), c.times(d));
    lemma_negated_product(a, b);
    lemma_negated_product(c, d);
    lemma_difference(p.negated(), q.negated());
    lemma_difference(p, q);
    lemma_negation(p, q.negated());
}

/// Opposites turn the sign of the inner product.
pub proof fn lemma_inner_negated<S: Scalar>(u: Vec3<S>, v: Vec3<S>)
    requires
        exact::<S>(),
    ensures
        u.negated().inner(v) == u.inner(v).negated(),
        u.inner(v.negated()) == u.inner(v).negated(),
        u.negated().inner(v.negated()) == u.inner(v),
{
    lemma_negated_product(u.x, v.x);
    lemma_negated_product(u.y, v.y);
    lemma_negated_product(u.z, v.z);
    lemma_negated_product(u.x, v.x.negated());
    lemma_negated_product(u.y, v.y.negated());
    lemma_negated_product(u.z, v.z.negated());
    let (p, q, r) = (u.x.times(v.x), u.y.times(v.y), u.z.times(v.z));
    lemma_negation(p, q);
    lemma_negation(q, r);
    lemma_negation(r, p);
    lemma_negation(p.plus(q), r);
}

/// The vector product is perpendicular to its factors.
pub proof fn lemma_outer_perpendicular<S: Scalar>(u: Vec3<S>, v: Vec3<S>)
    requires
        exact::<S>(),
    ensures
        u.outer(v).inner(u) == zero::<S>(),
        u.outer(v).inner(v) == zero::<S>(),
{
    lemma_perpendicular_to_first(u, v);
    lemma_perpendicular_to_first(v, u);
    lemma_outer_turned(u, v);
    lemma_inner_negated(v.outer(u), v);
    lemma_take_nothing(zero::<S>());
}

proof fn lemma_perpendicular_to_first<S: Scalar>(u: Vec3<S>, v: Vec3<S>)
    requires
        exact::<S>(),
    ensures
        u.outer(v).inner(u) == zero::<S>(),
{
    let a = u.y.times(v.z).times(u.x);
    let b = v.y.times(u.z).times(u.x);
    let c = u.z.times(v.x).times(u.y);
    lemma_three_factors(u.y, v.z, u.x);
    lemma_three_factors(v.y, u.z, u.x);
    lemma_three_factors(u.z, v.x, u.y);
    lemma_distribute_difference(u.y.times(v.z), v.y.times(u.z), u.x);
    lemma_distribute_difference(u.z.times(v.x), v.z.times(u.x), u.y);
    lemma_distribute_difference(u.x.times(v.y), v.x.times(u.y), u.z);
    assert(u.outer(v).inner(u) == a.minus(b).plus(c.minus(a)).plus(b.minus(c)));
    lemma_three_differences(a, b, c, a, b, c);
    lemma_commute(a, c);
    lemma_rotate_sum(a, c, b);
    lemma_rotate_sum(c, b, a);
    let whole = b.plus(a).plus(c);
    assert(a.plus(c).plus(b) == whole);
    lemma_difference(whole, whole);
    lemma_zero(whole);
}

/// One coordinate of a double vector product.
proof fn lemma_double_coordinate<S: Scalar>(a: S, b: S, c: S, p: S, q: S, r: S)
    requires
        exact::<S>(),
    ensures
        c.times(p).minus(r.times(a)).times(c).minus(b.times(a.times(q).minus(p.times(b))))
            == p.times(a.times(a).plus(b.times(b)).plus(c.times(c))).minus(
            a.times(a.times(p).plus(b.times(q)).plus(c.times(r))),
        ),
{
    let shared = p.times(a.times(a));
    let p1 = p.times(c.times(c));
    let p2 = p.times(b.times(b));
    let n1 = a.times(c.times(r));
    let n2 = a.times(b.times(q));
    lemma_three_factors(p, a, a);
    lemma_three_factors(a, a, p);
    lemma_three_factors(p, c, c);
    lemma_three_factors(c, p, c);
    lemma_three_factors(p, b, b);
    lemma_three_factors(b, p, b);
    lemma_three_factors(a, c, r);
    lemma_three_factors(r, a, c);
    lemma_three_factors(a, b, q);
    lemma_three_factors(b, a, q);
    lemma_distribute_difference(c.times(p), r.times(a), c);
    lemma_distribute_difference(a.times(q), p.times(b), b);
    assert(c.times(p).minus(r.times(a)).times(c) == p1.minus(n1));
    assert(b.times(a.times(q).minus(p.times(b))) == n2.minus(p2));
    lemma_difference(p1.minus(n1), n2.minus(p2));
    lemma_turn_difference(n2, p2);
    lemma_difference_of_sums(p1, p2, n1, n2);
    lemma_distribute_left(a.times(a), b.times(b), p);
    lemma_distribute_left(a.times(a).plus(b.times(b)), c.times(c), p);
    lemma_distribute_left(a.times(p), b.times(q), a);
    lemma_distribute_left(a.times(p).plus(b.times(q)), c.times(r), a);
    lemma_associate(shared, p2, p1);
    lemma_associate(shared, n2, n1);
    lemma_shared_term(shared, p2.plus(p1), n2.plus(n1));
    lemma_commute(p1, p2);
    lemma_commute(n1, n2);
}

/// The vector product of a vector product with its first factor.
pub proof fn lemma_double_outer<S: Scalar>(u: Vec3<S>, v: Vec3<S>)
    requires
        exact::<S>(),
    ensures
        u.outer(v).outer(u) == v.scaled(u.squared()).minus(u.scaled(u.inner(v))),
{
    lemma_double_coordinate(u.x, u.y, u.z, v.x, v.y, v.z);
    lemma_double_coordinate(u.y, u.z, u.x, v.y, v.z, v.x);
    lemma_double_coordinate(u.z, u.x, u.y, v.z, v.x, v.y);
    lemma_rotate_sum(u.x.times(u.x), u.y.times(u.y), u.z.times(u.z));
    lemma_rotate_sum(u.y.times(u.y), u.z.times(u.z), u.x.times(u.x));
    lemma_rotate_sum(u.x.times(v.x), u.y.times(v.y), u.z.times(v.z));
    lemma_rotate_sum(u.y.times(v.y), u.z.times(v.z), u.x.times(v.x));
}

/// A triple product does not depend on which of its products is the vector product.
pub proof fn lemma_triple<S: Scalar>(w: Vec3<S>, u: Vec3<S>, v: Vec3<S>)
    requires
        exact::<S>(),
    ensures
        w.inner(u.outer(v)) == w.outer(u).inner(v),
{
    let l1 = w.x.times(u.y.times(v.z));
    let l2 = w.x.times(v.y.times(u.z));
    let m1 = w.y.times(u.z.times(v.x));
    let m2 = w.y.times(v.z.times(u.x));
    let n1 = w.z.times(u.x.times(v.y));
    let n2 = w.z.times(v.x.times(u.y));
    lemma_three_factors(w.x, u.y, v.z);
    lemma_three_factors(w.x, v.y, u.z);
    lemma_three_factors(w.y, u.z, v.x);
    lemma_three_factors(w.y, v.z, u.x);
    lemma_three_factors(w.z, u.x, v.y);
    lemma_three_factors(w.z, v.x, u.y);
    lemma_distribute_difference(u.y.times(v.z), v.y.times(u.z), w.x);
    lemma_distribute_difference(u.z.times(v.x), v.z.times(u.x), w.y);
    lemma_distribute_difference(u.x.times(v.y), v.x.times(u.y), w.z);
    lemma_distribute_difference(w.y.times(u.z), u.y.times(w.z), v.x);
    lemma_distribute_difference(w.z.times(u.x), u.z.times(w.x), v.y);
    lemma_distribute_difference(w.x.times(u.y), u.x.times(w.y), v.z);
    lemma_three_differences(l1, l2, m1, m2, n1, n2);
    lemma_three_differences(m1, n2, n1, l2, l1, m2);
    lemma_rotate_sum(l1, m1, n1);
    lemma_rotate_sum(n2, l2, m2);
}

/// Whether the columns are perpendicular unit vectors and the third is the vector product of
/// the others.
pub open spec fn is_rotation<S: Scalar>(matrix: Mat3<S>) -> bool {
    &&& matrix.x_axis.squared() == one::<S>()
    &&& matrix.y_axis.squared() == one::<S>()
    &&& matrix.z_axis.squared() == one::<S>()
    &&& matrix.x_axis.inner(matrix.y_axis) == zero::<S>()
    &&& matrix.y_axis.inner(matrix.z_axis) == zero::<S>()
    &&& matrix.z_axis.inner(matrix.x_axis) == zero::<S>()
    &&& matrix.z_axis == matrix.x_axis.outer(matrix.y_axis)
}

proof fn lemma_unit_is_rotation<S: Scalar>()
    requires
        exact::<S>(),
    ensures
        is_rotation(Mat3::<S>::unit()),
{
    lemma_one(one::<S>());
    lemma_zero(one::<S>());
    lemma_zero(zero::<S>());
    lemma_take_nothing(one::<S>());
    lemma_take_nothing(zero::<S>());
}

/// What is left of a vector without its part along a unit vector is perpendicular to that.
pub proof fn lemma_rejected_perpendicular<S: Scalar>(x: Vec3<S>, y: Vec3<S>)
    requires
        exact::<S>(),
        x.squared() == one::<S>(),
    ensures
        x.inner(y.minus(x.scaled(x.inner(y)))) == zero::<S>(),
{
    let part = x.inner(y);
    let along = x.scaled(part);
    lemma_distribute_difference(y.x, along.x, x.x);
    lemma_distribute_difference(y.y, along.y, x.y);
    lemma_distribute_difference(y.z, along.z, x.z);
    lemma_three_differences(
        x.x.times(y.x),
        x.x.times(along.x),
        x.y.times(y.y),
        x.y.times(along.y),
        x.z.times(y.z),
        x.z.times(along.z),
    );
    lemma_scaled_inner(x, x, part);
    lemma_one(part);
    lemma_difference(part, part);
    lemma_zero(part);
}

/// Two perpendicular unit vectors and their vector product make a rotation.
pub proof fn lemma_frame<S: Scalar>(x: Vec3<S>, y: Vec3<S>)
    requires
        exact::<S>(),
        x.squared() == one::<S>(),
        y.squared() == one::<S>(),
        x.inner(y) == zero::<S>(),
    ensures
        is_rotation(Mat3 { x_axis: x, y_axis: y, z_axis: x.outer(y) }),
        x.outer(y).outer(x) == y,
{
    let z = x.outer(y);
    lemma_double_outer(x, y);
    lemma_one(y.x);
    lemma_one(y.y);
    lemma_one(y.z);
    lemma_zero(x.x);
    lemma_zero(x.y);
    lemma_zero(x.z);
    lemma_take_nothing(y.x);
    lemma_take_nothing(y.y);
    lemma_take_nothing(y.z);
    lemma_triple(z, x, y);
    lemma_outer_perpendicular(x, y);
    lemma_scaled_inner(z, y, one());
}

/// In exact arithmetic columns made orthonormal make a rotation, whatever they were.
pub proof fn lemma_orthonormalized_is_rotation<S: Scalar>(matrix: Mat3<S>)
    requires
        rooted::<S>(),
    ensures
        is_rotation(orthonormalized(matrix)),
{
    lemma_rooted::<S>();
    let x = matrix.x_axis.normal();
    let rejected = rejected_column(matrix, x);
    let y = rejected.normal();
    if matrix.x_axis.has_direction() && rejected.has_direction() {
        lemma_unit_normal(matrix.x_axis);
        lemma_unit_normal(rejected);
        lemma_rejected_perpendicular(x, matrix.y_axis);
        lemma_scaled_inner(x, rejected, rejected.inverse_length());
        lemma_zero(rejected.inverse_length());
        lemma_frame(x, y);
        if oriented_column(matrix, x, y) != x.outer(y) {
            lemma_outer_negated(x.outer(y), x);
            lemma_inner_negated(y, y);
            lemma_inner_negated(x, y);
            lemma_take_nothing(zero::<S>());
            lemma_frame(x, y.negated());
            lemma_outer_negated(x, y);
        }
    } else {
        lemma_unit_is_rotation::<S>();
    }
}

/// In exact arithmetic the closest rotation is a rotation, whatever the matrix.
pub proof fn lemma_closest_is_rotation<S: Scalar>(matrix: Mat3<S>, iterations: nat)
    requires
        rooted::<S>(),
    ensures
        is_rotation(closest_rotation_after(matrix, iterations)),
{
    lemma_division_free(matrix, iterations);
    lemma_orthonormalized_is_rotation(newton_rounds(matrix, iterations).0);
}

/// A unit vector is its own direction.
pub proof fn lemma_unit_kept<S: Scalar>(v: Vec3<S>)
    requires
        rooted::<S>(),
        v.squared() == one::<S>(),
    ensures
        v.has_direction(),
        v.normal() == v,
{
    lemma_rooted::<S>();
    let length = v.squared().root();
    lemma_length(v);
    lemma_direction(v);
    lemma_one(one::<S>());
    lemma_compare(zero::<S>(), one());
    lemma_compare(length, one());
    if length.at_most(one()) {
        lemma_equal_squares(length, one());
    } else {
        lemma_equal_squares(one(), length);
    }
    lemma_quotient(one::<S>(), one());
    lemma_one(one::<S>().over(one()));
    lemma_one(v.x);
    lemma_one(v.y);
    lemma_one(v.z);
}

/// The cofactors of a rotation are its columns, and its determinant is one.
pub proof fn lemma_rotation_cofactor<S: Scalar>(matrix: Mat3<S>)
    requires
        exact::<S>(),
        is_rotation(matrix),
    ensures
        matrix.cofactor() == matrix,
        matrix.volume() == one::<S>(),
{
    let (x, y, z) = (matrix.x_axis, matrix.y_axis, matrix.z_axis);
    lemma_frame(x, y);
    lemma_scaled_inner(x, y, one());
    lemma_frame(y, x);
    lemma_outer_turned(y, z);
    lemma_outer_turned(x, y);
    lemma_outer_negated(y.outer(x), y);
    lemma_negation(x.x, x.x);
    lemma_negation(x.y, x.y);
    lemma_negation(x.z, x.z);
}

proof fn lemma_mean_of_same<S: Scalar>(a: S, inverse: S)
    requires
        exact::<S>(),
        inverse == one::<S>(),
    ensures
        a.plus(a.times(inverse)).times(half()) == a,
{
    lemma_one(a);
    lemma_distribute(a, a, half());
    lemma_parts(a);
}

/// A round leaves a rotation.
proof fn lemma_round_keeps_rotation<S: Scalar>(matrix: Mat3<S>)
    requires
        exact::<S>(),
        zero::<S>() != one::<S>(),
        is_rotation(matrix),
    ensures
        newton_round(matrix) == matrix,
{
    lemma_rotation_cofactor(matrix);
    let inverse = one::<S>().over(one());
    lemma_quotient(one::<S>(), one());
    lemma_one(inverse);
    let m = matrix;
    lemma_mean_of_same(m.x_axis.x, inverse);
    lemma_mean_of_same(m.x_axis.y, inverse);
    lemma_mean_of_same(m.x_axis.z, inverse);
    lemma_mean_of_same(m.y_axis.x, inverse);
    lemma_mean_of_same(m.y_axis.y, inverse);
    lemma_mean_of_same(m.y_axis.z, inverse);
    lemma_mean_of_same(m.z_axis.x, inverse);
    lemma_mean_of_same(m.z_axis.y, inverse);
    lemma_mean_of_same(m.z_axis.z, inverse);
}

proof fn lemma_rounds_keep_rotation<S: Scalar>(matrix: Mat3<S>, rounds: nat)
    requires
        exact::<S>(),
        zero::<S>() != one::<S>(),
        is_rotation(matrix),
    ensures
        newton_rounds(matrix, rounds).0 == matrix,
    decreases rounds,
{
    lemma_round_keeps_rotation(matrix);
    if rounds > 0 {
        lemma_rounds_keep_rotation(matrix, (rounds - 1) as nat);
    }
}

/// In exact arithmetic a rotation is its own closest rotation.
pub proof fn lemma_rotation_kept<S: Scalar>(matrix: Mat3<S>, iterations: nat)
    requires
        rooted::<S>(),
        is_rotation(matrix),
    ensures
        closest_rotation_after(matrix, iterations) == matrix,
{
    lemma_rooted::<S>();
    let (x, y, z) = (matrix.x_axis, matrix.y_axis, matrix.z_axis);
    lemma_division_free(matrix, iterations);
    lemma_rounds_keep_rotation(matrix, iterations);
    lemma_unit_kept(x);
    lemma_zero(x.x);
    lemma_zero(x.y);
    lemma_zero(x.z);
    lemma_take_nothing(y.x);
    lemma_take_nothing(y.y);
    lemma_take_nothing(y.z);
    assert(rejected_column(matrix, x) == y);
    lemma_unit_kept(y);
    lemma_compare(zero::<S>(), one());
    lemma_frame(x, y);
}

} // verus!
