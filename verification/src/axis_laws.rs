//! In exact arithmetic the contact with the cylinder along x is the contact with a cylinder
//! along any axis, with x for the axis.

use crate::attachment::{
    collider_end, collider_start, interpolate_weights, point_of, safe_normal, static_push,
};
use crate::body::{rod_radius, weighted_point, AffineBody, ControlPoints, Weights};
use crate::constants::contact_epsilon;
use crate::contact_laws::lemma_interpolated_point;
use crate::cylinder::{cylinder_contact, penetrating_push, reject_from_x_axis, CylinderCollider};
use crate::field::{
    exact, lemma_associate, lemma_commute, lemma_difference, lemma_negation, lemma_one,
    lemma_reciprocal, lemma_take_nothing, lemma_zero,
};
use crate::order::{
    lemma_clamped, lemma_compare, lemma_far_vector, lemma_half, lemma_magnitude,
    lemma_opposite_order, lemma_ordered_is_exact, lemma_part_of_sum, ordered,
};
use crate::pruning_laws::lemma_beyond_capsule;
use crate::reference::{axis_contact, closest_point, perpendicular_to, reject_from_axis};
use crate::rotation_laws::{lemma_rooted, lemma_unit_kept, rooted};
use crate::scalar::{clamp_to_unit, half, one, zero, Scalar};
use crate::vector::Vec3;
use vstd::prelude::*;

verus! {

/// The part along x is the part along the axis x.
pub proof fn lemma_rejected_along_x<S: Scalar>(vector: Vec3<S>)
    requires
        exact::<S>(),
    ensures
        reject_from_axis(vector, Vec3::x_unit()) == reject_from_x_axis(vector),
{
    let x = vector.x;
    lemma_one(x);
    lemma_zero(vector.y);
    lemma_zero(vector.z);
    lemma_take_nothing(x);
    lemma_take_nothing(zero::<S>());
    lemma_zero(x);
    lemma_difference(x, x);
    lemma_take_nothing(vector.y);
    lemma_take_nothing(vector.z);
}

/// Upwards is perpendicular to x.
proof fn lemma_upwards<S: Scalar>()
    requires
        rooted::<S>(),
    ensures
        perpendicular_to(Vec3::<S>::x_unit()) == Vec3::<S>::y_unit(),
        Vec3::<S>::y_unit().normal_or_origin() == Vec3::<S>::y_unit(),
{
    lemma_rooted::<S>();
    lemma_compare(zero::<S>(), zero());
    lemma_magnitude(zero::<S>());
    lemma_rejected_along_x(Vec3::<S>::y_unit());
    lemma_one(one::<S>());
    lemma_zero(zero::<S>());
    lemma_take_nothing(one::<S>());
    lemma_unit_kept(Vec3::<S>::y_unit());
}

/// The push out of the cylinder goes along the first direction that is long enough.
proof fn lemma_push_direction<S: Scalar>(
    body: AffineBody<S>,
    previous: ControlPoints<S>,
    weights: Weights<S>,
    radial: Vec3<S>,
    contact_distance: S,
    origin: Vec3<S>,
)
    requires
        rooted::<S>(),
    ensures
        ({
            let normal = safe_normal(
                radial,
                reject_from_x_axis(weighted_point(previous, weights).minus(origin)),
                Vec3::y_unit(),
            );
            penetrating_push(
                body,
                previous,
                weights,
                radial,
                radial.squared(),
                contact_distance,
                origin,
            ) == static_push(
                body,
                weights,
                normal,
                contact_distance.minus(radial.squared().root()),
            )
        }),
{
    lemma_rooted::<S>();
    let length = radial.squared().root();
    lemma_reciprocal(radial.x, length);
    lemma_reciprocal(radial.y, length);
    lemma_reciprocal(radial.z, length);
}

/// A number and its opposite have the same size.
proof fn lemma_same_size<S: Scalar>(a: S)
    requires
        ordered::<S>(),
    ensures
        a.negated().magnitude() == a.magnitude(),
{
    lemma_ordered_is_exact::<S>();
    lemma_magnitude(a);
    lemma_magnitude(a.negated());
    lemma_compare(zero(), a);
    lemma_compare(zero(), a.negated());
    lemma_take_nothing(a);
    lemma_negation(a, a);
    if zero::<S>().at_most(a) {
        lemma_opposite_order(zero(), a);
    } else {
        lemma_opposite_order(a, zero());
    }
}

/// A rod whose box stays clear of the cylinder is far enough from it everywhere.
pub proof fn lemma_clear_rod<S: Scalar>(start: Vec3<S>, direction: Vec3<S>, t: S, distance: S)
    requires
        ordered::<S>(),
        zero::<S>().at_most(t),
        t.at_most(one()),
        zero::<S>().at_most(distance),
        ({
            let middle = start.plus(direction.scaled(half()));
            let reach = direction.magnitudes().scaled(half()).plus(Vec3::all(distance));
            reach.y.below(middle.y.magnitude()) || reach.z.below(middle.z.magnitude())
        }),
    ensures
        distance.times(distance).at_most(start.plus(direction.scaled(t)).squared()),
{
    lemma_ordered_is_exact::<S>();
    let middle = start.plus(direction.scaled(half()));
    let reach = direction.magnitudes().scaled(half()).plus(Vec3::all(distance));
    let here = start.plus(direction.scaled(t));
    lemma_same_size(middle.y);
    lemma_same_size(middle.z);
    lemma_take_nothing(middle.y);
    lemma_take_nothing(middle.z);
    lemma_take_nothing(here.y);
    lemma_take_nothing(here.z);
    lemma_negation(here.y, here.y);
    lemma_negation(here.z, here.z);
    if reach.y.below(middle.y.magnitude()) {
        lemma_beyond_capsule(zero(), start.y, direction.y, distance, t);
    } else {
        lemma_beyond_capsule(zero(), start.z, direction.z, distance, t);
    }
    lemma_far_vector(here, distance);
}

/// A point of a rod seen from the cylinder.
pub proof fn lemma_seen_from<S: Scalar>(start: S, step: S, origin: S)
    requires
        exact::<S>(),
    ensures
        start.plus(step).minus(origin) == start.minus(origin).plus(step),
{
    lemma_difference(start.plus(step), origin);
    lemma_difference(start, origin);
    lemma_associate(start, step, origin.negated());
    lemma_commute(step, origin.negated());
    lemma_associate(start, origin.negated(), step);
}

/// In exact arithmetic a body that meets the cylinder is pushed as by a cylinder along any
/// axis whose axis is x.
pub proof fn lemma_contact_along_x<S: Scalar>(
    body: AffineBody<S>,
    previous: ControlPoints<S>,
    cylinder: CylinderCollider<S>,
)
    requires
        rooted::<S>(),
        zero::<S>().at_most(cylinder.radius),
    ensures
        cylinder_contact(body, previous, cylinder).0 == axis_contact(
            body,
            previous,
            cylinder,
            Vec3::x_unit(),
        ),
{
    lemma_rooted::<S>();
    lemma_ordered_is_exact::<S>();
    lemma_upwards::<S>();
    let axis = Vec3::<S>::x_unit();
    let (weights, proxy_radius) = closest_point(body, cylinder.origin, axis);
    let contact_distance = cylinder.radius.plus(proxy_radius);
    let point = point_of(body, weights).minus(cylinder.origin);
    let radial = reject_from_x_axis(point);
    lemma_rejected_along_x(point);
    lemma_rejected_along_x(weighted_point(previous, weights).minus(cylinder.origin));
    lemma_push_direction(body, previous, weights, radial, contact_distance, cylinder.origin);
    if body.kind is Rod {
        let start = point_of(body, collider_start());
        let end = point_of(body, collider_end());
        let start_radial = reject_from_x_axis(start.minus(cylinder.origin));
        let direction_radial = reject_from_x_axis(end.minus(start));
        let denominator = direction_radial.squared();
        let value = start_radial.inner(direction_radial).negated().over(denominator);
        let t = if contact_epsilon::<S>().below(denominator) {
            clamp_to_unit(value)
        } else {
            half()
        };
        lemma_rejected_along_x(start.minus(cylinder.origin));
        lemma_rejected_along_x(end.minus(start));
        assert(weights == interpolate_weights(collider_start(), collider_end(), t));
        let here = start_radial.plus(direction_radial.scaled(t));
        assert(radial == here) by {
            lemma_interpolated_point(body, collider_start(), collider_end(), t);
            let step = end.minus(start).scaled(t);
            lemma_seen_from(start.y, step.y, cylinder.origin.y);
            lemma_seen_from(start.z, step.z, cylinder.origin.z);
            lemma_zero(t);
            lemma_take_nothing(zero::<S>());
        }
        lemma_half::<S>();
        lemma_clamped(value);
        lemma_compare(here.squared(), contact_distance.times(contact_distance));
        lemma_part_of_sum(cylinder.radius, rod_radius());
        let middle = start_radial.plus(direction_radial.scaled(half()));
        let reach = direction_radial.magnitudes().scaled(half()).plus(
            Vec3::all(contact_distance),
        );
        if reach.y.below(middle.y.magnitude()) || reach.z.below(middle.z.magnitude()) {
            lemma_clear_rod(start_radial, direction_radial, t, contact_distance);
        }
    }
}

} // verus!
