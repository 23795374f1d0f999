//! Exact arithmetic whose numbers have an order, and inequalities that hold in it.

use crate::body::rod_radius;
use crate::constants::{ball_radius, hub_radius, rod_collider_trim};
use crate::field::{
    exact, lemma_associate, lemma_commute, lemma_difference, lemma_difference_of_sums,
    lemma_distribute_difference, lemma_exchange, lemma_negated_product, lemma_negation, lemma_one,
    lemma_parts, lemma_product_commute, lemma_take_nothing, lemma_undo, lemma_zero,
};
use crate::scalar::{clamp_to_unit, half, one, zero, Scalar};
use crate::vector::Vec3;
use vstd::prelude::*;

verus! {

/// Of two numbers one is at most the other, only equal ones are both, and to be below is not
/// to be at least.
pub open spec fn numbers_compare<S: Scalar>(a: S, b: S) -> bool {
    &&& a.at_most(b) || b.at_most(a)
    &&& a.below(b) == !b.at_most(a)
    &&& a.at_most(b) && b.at_most(a) ==> a == b
}

/// What is at most something that is at most a number is at most that number.
pub open spec fn order_chains<S: Scalar>(a: S, b: S, c: S) -> bool {
    a.at_most(b) && b.at_most(c) ==> a.at_most(c)
}

/// Adding a number keeps the order.
pub open spec fn sums_keep_order<S: Scalar>(a: S, b: S, c: S) -> bool {
    a.at_most(b) ==> a.plus(c).at_most(b.plus(c))
}

/// Products of numbers that are not negative are not negative.
pub open spec fn products_keep_sign<S: Scalar>(a: S, b: S) -> bool {
    zero::<S>().at_most(a) && zero::<S>().at_most(b) ==> zero::<S>().at_most(a.times(b))
}

/// The size of a number is the number, without its sign.
pub open spec fn magnitude_drops_sign<S: Scalar>(a: S) -> bool {
    a.magnitude() == (if zero::<S>().at_most(a) {
        a
    } else {
        a.negated()
    })
}

/// No shape has a negative size, a rod is no thicker than a hub, and what the rods leave free
/// of the distance between their hubs is a part of it.
pub open spec fn sizes_compare<S: Scalar>() -> bool {
    &&& zero::<S>().at_most(ball_radius())
    &&& zero::<S>().at_most(rod_radius())
    &&& rod_radius::<S>().at_most(hub_radius())
    &&& zero::<S>().at_most(rod_collider_trim())
    &&& rod_collider_trim::<S>().at_most(one())
    &&& zero::<S>().at_most(half())
}

/// Whether the arithmetic does not round and its numbers have an order that sums and products
/// keep.
#[verifier::opaque]
pub open spec fn ordered<S: Scalar>() -> bool {
    &&& exact::<S>()
    &&& forall|a: S, b: S| #[trigger] numbers_compare(a, b)
    &&& forall|a: S, b: S, c: S| #[trigger] order_chains(a, b, c)
    &&& forall|a: S, b: S, c: S| #[trigger] sums_keep_order(a, b, c)
    &&& forall|a: S, b: S| #[trigger] products_keep_sign(a, b)
    &&& forall|a: S| #[trigger] magnitude_drops_sign(a)
    &&& sizes_compare::<S>()
}

pub proof fn lemma_ordered_is_exact<S: Scalar>()
    requires
        ordered::<S>(),
    ensures
        exact::<S>(),
        sizes_compare::<S>(),
{
    reveal(ordered);
}

pub proof fn lemma_compare<S: Scalar>(a: S, b: S)
    requires
        ordered::<S>(),
    ensures
        a.at_most(b) || b.at_most(a),
        a.below(b) == !b.at_most(a),
        b.below(a) == !a.at_most(b),
        a.at_most(a),
        a.at_most(b) && b.at_most(a) ==> a == b,
{
    reveal(ordered);
    assert(numbers_compare(a, b));
    assert(numbers_compare(b, a));
    assert(numbers_compare(a, a));
}

pub proof fn lemma_chain<S: Scalar>(a: S, b: S, c: S)
    requires
        ordered::<S>(),
        a.at_most(b),
        b.at_most(c),
    ensures
        a.at_most(c),
{
    reveal(ordered);
    assert(order_chains(a, b, c));
}

pub proof fn lemma_add_both<S: Scalar>(a: S, b: S, c: S)
    requires
        ordered::<S>(),
        a.at_most(b),
    ensures
        a.plus(c).at_most(b.plus(c)),
        c.plus(a).at_most(c.plus(b)),
{
    reveal(ordered);
    assert(sums_keep_order(a, b, c));
    lemma_commute(a, c);
    lemma_commute(b, c);
}

/// A number is at most another where their difference is not negative, and the other way
/// round.
pub proof fn lemma_gap<S: Scalar>(a: S, b: S)
    requires
        ordered::<S>(),
    ensures
        a.at_most(b) <==> zero::<S>().at_most(b.minus(a)),
{
    lemma_ordered_is_exact::<S>();
    if a.at_most(b) {
        lemma_add_both(a, b, a.negated());
        lemma_zero(a);
        lemma_difference(b, a);
    }
    if zero::<S>().at_most(b.minus(a)) {
        lemma_add_both(zero(), b.minus(a), a);
        lemma_undo(b, a);
        lemma_take_nothing(a);
    }
}

/// Opposites are in the opposite order.
pub proof fn lemma_opposite_order<S: Scalar>(a: S, b: S)
    requires
        ordered::<S>(),
        a.at_most(b),
    ensures
        b.negated().at_most(a.negated()),
{
    lemma_ordered_is_exact::<S>();
    lemma_gap(a, b);
    lemma_gap(b.negated(), a.negated());
    lemma_difference(a.negated(), b.negated());
    lemma_negation(b, b);
    lemma_commute(a.negated(), b);
    lemma_difference(b, a);
}

pub proof fn lemma_sign<S: Scalar>(a: S, b: S)
    requires
        ordered::<S>(),
        zero::<S>().at_most(a),
        zero::<S>().at_most(b),
    ensures
        zero::<S>().at_most(a.times(b)),
{
    reveal(ordered);
    assert(products_keep_sign(a, b));
}

pub proof fn lemma_magnitude<S: Scalar>(a: S)
    requires
        ordered::<S>(),
    ensures
        a.magnitude() == (if zero::<S>().at_most(a) {
            a
        } else {
            a.negated()
        }),
{
    reveal(ordered);
    assert(magnitude_drops_sign(a));
}

/// A factor that is not negative keeps the order.
pub proof fn lemma_scale_both<S: Scalar>(a: S, b: S, c: S)
    requires
        ordered::<S>(),
        a.at_most(b),
        zero::<S>().at_most(c),
    ensures
        a.times(c).at_most(b.times(c)),
        c.times(a).at_most(c.times(b)),
{
    lemma_ordered_is_exact::<S>();
    lemma_gap(a, b);
    lemma_sign(b.minus(a), c);
    lemma_distribute_difference(b, a, c);
    lemma_gap(a.times(c), b.times(c));
    lemma_product_commute(a, c);
    lemma_product_commute(b, c);
}

/// Squares are not negative.
pub proof fn lemma_square<S: Scalar>(a: S)
    requires
        ordered::<S>(),
    ensures
        zero::<S>().at_most(a.times(a)),
{
    lemma_ordered_is_exact::<S>();
    lemma_compare(zero(), a);
    if zero::<S>().at_most(a) {
        lemma_sign(a, a);
    } else {
        lemma_opposite_order(a, zero());
        lemma_take_nothing(a);
        lemma_sign(a.negated(), a.negated());
        lemma_negated_product(a, a.negated());
        lemma_negated_product(a, a);
        lemma_negation(a.times(a), a);
    }
}

/// The larger of two numbers that are not negative has the larger square.
pub proof fn lemma_square_order<S: Scalar>(a: S, b: S)
    requires
        ordered::<S>(),
        zero::<S>().at_most(a),
        a.at_most(b),
    ensures
        a.times(a).at_most(b.times(b)),
{
    lemma_chain(zero(), a, b);
    lemma_scale_both(a, b, a);
    lemma_scale_both(a, b, b);
    lemma_chain(a.times(a), a.times(b), b.times(b));
}

/// A number that is `d` away from zero, on either side, has at least the square of `d`.
pub proof fn lemma_far_square<S: Scalar>(x: S, d: S)
    requires
        ordered::<S>(),
        zero::<S>().at_most(d),
        d.at_most(x) || d.at_most(x.negated()),
    ensures
        d.times(d).at_most(x.times(x)),
{
    lemma_ordered_is_exact::<S>();
    if d.at_most(x) {
        lemma_square_order(d, x);
    } else {
        lemma_square_order(d, x.negated());
        lemma_negated_product(x, x.negated());
        lemma_negated_product(x, x);
        lemma_negation(x.times(x), x);
    }
}

/// A term of a sum of two terms that are not negative is at most the sum.
pub proof fn lemma_part_of_sum<S: Scalar>(a: S, b: S)
    requires
        ordered::<S>(),
        zero::<S>().at_most(a),
        zero::<S>().at_most(b),
    ensures
        a.at_most(a.plus(b)),
        b.at_most(a.plus(b)),
        zero::<S>().at_most(a.plus(b)),
{
    lemma_ordered_is_exact::<S>();
    lemma_take_nothing(a);
    lemma_take_nothing(b);
    lemma_add_both(zero(), b, a);
    lemma_add_both(zero(), a, b);
    lemma_chain(zero(), a, a.plus(b));
}

/// A vector that is `d` away from zero in one of its coordinates is so in all.
pub proof fn lemma_far_vector<S: Scalar>(v: Vec3<S>, d: S)
    requires
        ordered::<S>(),
        zero::<S>().at_most(d),
        d.at_most(v.x) || d.at_most(v.x.negated()) || d.at_most(v.y) || d.at_most(v.y.negated())
            || d.at_most(v.z) || d.at_most(v.z.negated()),
    ensures
        d.times(d).at_most(v.squared()),
{
    let (x, y, z) = (v.x.times(v.x), v.y.times(v.y), v.z.times(v.z));
    lemma_square(v.x);
    lemma_square(v.y);
    lemma_square(v.z);
    lemma_part_of_sum(x, y);
    lemma_part_of_sum(x.plus(y), z);
    lemma_chain(x, x.plus(y), v.squared());
    lemma_chain(y, x.plus(y), v.squared());
    if d.at_most(v.x) || d.at_most(v.x.negated()) {
        lemma_far_square(v.x, d);
        lemma_chain(d.times(d), x, v.squared());
    } else if d.at_most(v.y) || d.at_most(v.y.negated()) {
        lemma_far_square(v.y, d);
        lemma_chain(d.times(d), y, v.squared());
    } else {
        lemma_far_square(v.z, d);
        lemma_chain(d.times(d), z, v.squared());
    }
}

/// What lies between two numbers, as a sum of parts of both.
proof fn lemma_between_parts<S: Scalar>(low: S, start: S, end: S, t: S)
    requires
        exact::<S>(),
    ensures
        start.plus(end.minus(start).times(t)).minus(low) == start.minus(low).times(
            one::<S>().minus(t),
        ).plus(end.minus(low).times(t)),
{
    let a = start.minus(low);
    let b = end.minus(low);
    lemma_take_nothing(low);
    lemma_take_nothing(end.minus(start).times(t));
    lemma_difference_of_sums(start, end.minus(start).times(t), low, zero());
    assert(start.plus(end.minus(start).times(t)).minus(low) == a.plus(
        end.minus(start).times(t),
    ));
    lemma_undo(start, low);
    lemma_undo(end, low);
    lemma_shift_difference(end, start, low);
    assert(end.minus(start) == b.minus(a));
    lemma_distribute_difference(b, a, t);
    lemma_distribute_difference(one(), t, a);
    lemma_one(a);
    lemma_difference(b.times(t), a.times(t));
    lemma_difference(a, a.times(t));
    lemma_commute(b.times(t), a.times(t).negated());
    lemma_associate(a, a.times(t).negated(), b.times(t));
}

/// Taking the same away from two numbers keeps their difference.
pub proof fn lemma_shift_difference<S: Scalar>(a: S, b: S, c: S)
    requires
        exact::<S>(),
    ensures
        a.minus(c).minus(b.minus(c)) == a.minus(b),
{
    lemma_difference(a.minus(c), b.minus(c));
    lemma_difference(a, c);
    lemma_difference(b, c);
    lemma_negation(b, c.negated());
    lemma_negation(c, c);
    lemma_exchange(a, c.negated(), b.negated(), c);
    lemma_commute(c.negated(), c);
    lemma_zero(c);
    lemma_zero(a.plus(b.negated()));
    lemma_difference(a, b);
}

/// What lies between two numbers is at least what both are at least.
pub proof fn lemma_between_low<S: Scalar>(low: S, start: S, end: S, t: S)
    requires
        ordered::<S>(),
        low.at_most(start),
        low.at_most(end),
        zero::<S>().at_most(t),
        t.at_most(one()),
    ensures
        low.at_most(start.plus(end.minus(start).times(t))),
{
    lemma_ordered_is_exact::<S>();
    lemma_gap(low, start);
    lemma_gap(low, end);
    lemma_gap(t, one());
    lemma_sign(start.minus(low), one::<S>().minus(t));
    lemma_sign(end.minus(low), t);
    lemma_part_of_sum(start.minus(low).times(one::<S>().minus(t)), end.minus(low).times(t));
    lemma_between_parts(low, start, end, t);
    lemma_gap(low, start.plus(end.minus(start).times(t)));
}

/// What lies between two numbers is at most what both are at most.
pub proof fn lemma_between_high<S: Scalar>(high: S, start: S, end: S, t: S)
    requires
        ordered::<S>(),
        start.at_most(high),
        end.at_most(high),
        zero::<S>().at_most(t),
        t.at_most(one()),
    ensures
        start.plus(end.minus(start).times(t)).at_most(high),
{
    lemma_ordered_is_exact::<S>();
    let value = start.plus(end.minus(start).times(t));
    lemma_gap(start, high);
    lemma_gap(end, high);
    lemma_gap(t, one());
    lemma_sign(high.minus(start), one::<S>().minus(t));
    lemma_sign(high.minus(end), t);
    let parts = high.minus(start).times(one::<S>().minus(t)).plus(high.minus(end).times(t));
    lemma_part_of_sum(high.minus(start).times(one::<S>().minus(t)), high.minus(end).times(t));
    lemma_between_parts(high, start, end, t);
    lemma_turn_difference(start, high);
    lemma_turn_difference(end, high);
    lemma_turn_difference(value, high);
    lemma_negated_product(start.minus(high), one::<S>().minus(t));
    lemma_negated_product(end.minus(high), t);
    lemma_negation(
        start.minus(high).times(one::<S>().minus(t)),
        end.minus(high).times(t),
    );
    assert(high.minus(value) == parts);
    lemma_gap(value, high);
}

/// The opposite of a difference is the difference the other way round.
pub proof fn lemma_turn_difference<S: Scalar>(a: S, b: S)
    requires
        exact::<S>(),
    ensures
        a.minus(b).negated() == b.minus(a),
{
    lemma_difference(a, b);
    lemma_negation(a, b.negated());
    lemma_negation(b, b);
    lemma_commute(a.negated(), b);
    lemma_difference(b, a);
}

/// Half lies between zero and one, as far from the one as from the other.
pub proof fn lemma_half<S: Scalar>()
    requires
        ordered::<S>(),
    ensures
        zero::<S>().at_most(half()),
        half::<S>().at_most(one()),
        half::<S>().plus(half()) == one::<S>(),
        one::<S>().minus(half()) == half::<S>(),
{
    lemma_ordered_is_exact::<S>();
    lemma_parts(one::<S>());
    lemma_one(half::<S>());
    lemma_part_of_sum(half::<S>(), half());
    lemma_undo(half::<S>(), half());
}

/// A clamped number lies between zero and one.
pub proof fn lemma_clamped<S: Scalar>(value: S)
    requires
        ordered::<S>(),
    ensures
        zero::<S>().at_most(clamp_to_unit(value)),
        clamp_to_unit(value).at_most(one()),
{
    lemma_half::<S>();
    lemma_compare(zero::<S>(), one());
    lemma_chain(zero::<S>(), half(), one());
    lemma_compare(one(), one::<S>());
    lemma_compare(value, zero());
    lemma_compare(one(), value);
}

} // verus!
