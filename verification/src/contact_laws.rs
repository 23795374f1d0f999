//! What contacts achieve in exact arithmetic: they move the touching points by just as much as
//! is missing between them.

use crate::attachment::{
    collider_end, collider_start, interpolate_weights, inverse_weight, pair_push, parting_normal,
    point_of, pushed, static_push,
};
use crate::body::{
    hub_center, rod_end, rod_joint_endpoints, rod_radius, rod_start, weighted_point, AffineBody,
    BodyKind, ControlPoints, Weights,
};
use crate::balls::detailed_proxy;
use crate::constants::{contact_epsilon, hub_radius, rod_collider_trim};
use crate::cylinder::{cylinder_contact, penetrating_push, reject_from_x_axis, CylinderCollider};
use crate::dual_laws::lemma_joint_point_of;
use crate::field::{
    exact, lemma_difference, lemma_difference_of_sums, lemma_distribute,
    lemma_distribute_difference, lemma_distribute_left,
    lemma_exchange, lemma_exchange_factors, lemma_negated_product, lemma_negation, lemma_one,
    lemma_product_associate, lemma_quotient, lemma_take_nothing, lemma_undo, lemma_zero,
};
use crate::scalar::{clamp_to_unit, half, one, zero, Scalar};
use crate::vector::Vec3;
use vstd::prelude::*;

verus! {

/// One weighted coordinate that moves by its weight.
proof fn lemma_moved_term<S: Scalar>(point: S, weight: S, direction: S, scale: S)
    requires
        exact::<S>(),
    ensures
        point.plus(direction.times(scale.times(weight))).times(weight) == point.times(weight).plus(
            direction.times(scale.times(weight.times(weight))),
        ),
{
    lemma_distribute(point, direction.times(scale.times(weight)), weight);
    lemma_product_associate(direction, scale.times(weight), weight);
    lemma_product_associate(scale, weight, weight);
}

/// The coordinates of four points by their weights.
spec fn weighted<S: Scalar>(p: (S, S, S, S), w: (S, S, S, S)) -> S {
    zero::<S>().plus(p.0.times(w.0)).plus(p.1.times(w.1)).plus(p.2.times(w.2)).plus(
        p.3.times(w.3),
    )
}

/// One coordinate of a pushed point.
proof fn lemma_pushed_coordinate<S: Scalar>(
    p: (S, S, S, S),
    w: (S, S, S, S),
    direction: S,
    inverse: S,
    multiplier: S,
)
    requires
        exact::<S>(),
    ensures
        ({
            let scale = inverse.times(multiplier);
            let after = (
                p.0.plus(direction.times(scale.times(w.0))),
                p.1.plus(direction.times(scale.times(w.1))),
                p.2.plus(direction.times(scale.times(w.2))),
                p.3.plus(direction.times(scale.times(w.3))),
            );
            weighted(after, w) == weighted(p, w).plus(
                direction.times(inverse.times(weighted(w, w)).times(multiplier)),
            )
        }),
{
    let scale = inverse.times(multiplier);
    let (a, b, c, d) = (p.0.times(w.0), p.1.times(w.1), p.2.times(w.2), p.3.times(w.3));
    let (s, t, u, v) = (w.0.times(w.0), w.1.times(w.1), w.2.times(w.2), w.3.times(w.3));
    let pull = |square: S| direction.times(scale.times(square));
    lemma_moved_term(p.0, w.0, direction, scale);
    lemma_moved_term(p.1, w.1, direction, scale);
    lemma_moved_term(p.2, w.2, direction, scale);
    lemma_moved_term(p.3, w.3, direction, scale);
    lemma_take_nothing(a);
    lemma_take_nothing(s);
    lemma_take_nothing(a.plus(pull(s)));
    lemma_exchange(a, pull(s), b, pull(t));
    lemma_exchange(a.plus(b), pull(s).plus(pull(t)), c, pull(u));
    lemma_exchange(a.plus(b).plus(c), pull(s).plus(pull(t)).plus(pull(u)), d, pull(v));
    lemma_pulls_add(direction, scale, s, t);
    lemma_pulls_add(direction, scale, s.plus(t), u);
    lemma_pulls_add(direction, scale, s.plus(t).plus(u), v);
    lemma_exchange_factors(inverse, multiplier, s.plus(t).plus(u).plus(v));
}

proof fn lemma_pulls_add<S: Scalar>(direction: S, scale: S, first: S, second: S)
    requires
        exact::<S>(),
    ensures
        direction.times(scale.times(first)).plus(direction.times(scale.times(second)))
            == direction.times(scale.times(first.plus(second))),
{
    lemma_distribute_left(first, second, scale);
    lemma_distribute_left(scale.times(first), scale.times(second), direction);
}

/// A push moves the point that it acts on along its direction, by the multiplier times how
/// easily the point moves. A fixed body has nothing that moves.
pub proof fn lemma_pushed_point<S: Scalar>(
    body: AffineBody<S>,
    weights: Weights<S>,
    direction: Vec3<S>,
    multiplier: S,
)
    requires
        exact::<S>(),
        body.fixed ==> body.inverse_diagonal == zero::<S>(),
    ensures
        point_of(pushed(body, weights, direction, multiplier), weights) == point_of(
            body,
            weights,
        ).plus(direction.scaled(inverse_weight(body, weights).times(multiplier))),
{
    let w = (weights.w0, weights.w1, weights.w2, weights.w3);
    let points = body.positions;
    let inverse = body.inverse_diagonal;
    if body.fixed {
        let here = point_of(body, weights);
        lemma_zero(weighted(w, w));
        lemma_zero(multiplier);
        lemma_zero(direction.x);
        lemma_zero(direction.y);
        lemma_zero(direction.z);
        lemma_take_nothing(here.x);
        lemma_take_nothing(here.y);
        lemma_take_nothing(here.z);
    } else {
        lemma_pushed_coordinate(
            (points.p0.x, points.p1.x, points.p2.x, points.p3.x),
            w,
            direction.x,
            inverse,
            multiplier,
        );
        lemma_pushed_coordinate(
            (points.p0.y, points.p1.y, points.p2.y, points.p3.y),
            w,
            direction.y,
            inverse,
            multiplier,
        );
        lemma_pushed_coordinate(
            (points.p0.z, points.p1.z, points.p2.z, points.p3.z),
            w,
            direction.z,
            inverse,
            multiplier,
        );
    }
}

/// A body that is pushed out of something fixed leaves it by just as much as it was inside.
pub proof fn lemma_static_push_resolves<S: Scalar>(
    body: AffineBody<S>,
    weights: Weights<S>,
    normal: Vec3<S>,
    penetration: S,
)
    requires
        exact::<S>(),
        inverse_weight(body, weights) != zero::<S>(),
        static_push(body, weights, normal, penetration).1,
    ensures
        point_of(static_push(body, weights, normal, penetration).0, weights) == point_of(
            body,
            weights,
        ).plus(normal.scaled(penetration)),
{
    let weight = inverse_weight(body, weights);
    lemma_pushed_point(body, weights, normal, penetration.over(weight));
    lemma_quotient(penetration, weight);
}

/// One coordinate of two points that are pushed apart.
proof fn lemma_apart<S: Scalar>(a: S, b: S, normal: S, first: S, second: S, multiplier: S)
    requires
        exact::<S>(),
    ensures
        a.plus(normal.times(first.times(multiplier))).minus(
            b.plus(normal.negated().times(second.times(multiplier))),
        ) == a.minus(b).plus(normal.times(first.plus(second).times(multiplier))),
{
    let here = normal.times(first.times(multiplier));
    let there = normal.times(second.times(multiplier));
    lemma_negated_product(normal, second.times(multiplier));
    lemma_difference_of_sums(a, here, b, there.negated());
    lemma_difference(here, there.negated());
    lemma_negation(there, there);
    lemma_distribute(first, second, multiplier);
    lemma_distribute_left(first.times(multiplier), second.times(multiplier), normal);
}

/// Two bodies that are pushed apart part by just as much as their points were too close; each
/// takes the part of it that its ease of moving says. Where their points did not coincide
/// they end up `minimum_distance` from each other along the line between them.
pub proof fn lemma_pair_push_separates<S: Scalar>(
    a: AffineBody<S>,
    a_weights: Weights<S>,
    a_previous: ControlPoints<S>,
    b: AffineBody<S>,
    b_weights: Weights<S>,
    b_previous: ControlPoints<S>,
    minimum_distance: S,
    fallback: Vec3<S>,
)
    requires
        exact::<S>(),
        a.fixed ==> a.inverse_diagonal == zero::<S>(),
        b.fixed ==> b.inverse_diagonal == zero::<S>(),
        inverse_weight(a, a_weights).plus(inverse_weight(b, b_weights)) != zero::<S>(),
        pair_push(
            (a, a_weights, a_previous, point_of(a, a_weights)),
            (b, b_weights, b_previous, point_of(b, b_weights)),
            minimum_distance,
            fallback,
        ).2,
    ensures
        ({
            let push = pair_push(
                (a, a_weights, a_previous, point_of(a, a_weights)),
                (b, b_weights, b_previous, point_of(b, b_weights)),
                minimum_distance,
                fallback,
            );
            let delta = point_of(a, a_weights).minus(point_of(b, b_weights));
            let distance = delta.squared().root();
            let penetration = minimum_distance.minus(distance);
            let normal = parting_normal(
                delta,
                weighted_point(a_previous, a_weights).minus(
                    weighted_point(b_previous, b_weights),
                ),
                fallback,
            );
            let first = inverse_weight(a, a_weights);
            let second = inverse_weight(b, b_weights);
            let multiplier = penetration.over(first.plus(second));
            let apart = point_of(push.0, a_weights).minus(point_of(push.1, b_weights));
            &&& point_of(push.0, a_weights) == point_of(a, a_weights).plus(
                normal.scaled(first.times(multiplier)),
            )
            &&& point_of(push.1, b_weights) == point_of(b, b_weights).plus(
                normal.negated().scaled(second.times(multiplier)),
            )
            &&& apart == delta.plus(normal.scaled(penetration))
            &&& contact_epsilon::<S>().below(delta.squared()) && distance != zero::<S>() ==> apart
                == delta.over(distance).scaled(minimum_distance)
        }),
{
    let a_position = point_of(a, a_weights);
    let b_position = point_of(b, b_weights);
    let push = pair_push(
        (a, a_weights, a_previous, a_position),
        (b, b_weights, b_previous, b_position),
        minimum_distance,
        fallback,
    );
    let delta = a_position.minus(b_position);
    let distance = delta.squared().root();
    let penetration = minimum_distance.minus(distance);
    let normal = parting_normal(
        delta,
        weighted_point(a_previous, a_weights).minus(weighted_point(b_previous, b_weights)),
        fallback,
    );
    let first = inverse_weight(a, a_weights);
    let second = inverse_weight(b, b_weights);
    let multiplier = penetration.over(first.plus(second));
    lemma_pushed_point(a, a_weights, normal, multiplier);
    lemma_pushed_point(b, b_weights, normal.negated(), multiplier);
    lemma_apart(a_position.x, b_position.x, normal.x, first, second, multiplier);
    lemma_apart(a_position.y, b_position.y, normal.y, first, second, multiplier);
    lemma_apart(a_position.z, b_position.z, normal.z, first, second, multiplier);
    lemma_quotient(penetration, first.plus(second));
    let apart = point_of(push.0, a_weights).minus(point_of(push.1, b_weights));
    assert(apart == delta.plus(normal.scaled(penetration)));
    if contact_epsilon::<S>().below(delta.squared()) && distance != zero::<S>() {
        lemma_stretch(delta.x, distance, minimum_distance);
        lemma_stretch(delta.y, distance, minimum_distance);
        lemma_stretch(delta.z, distance, minimum_distance);
    }
}

/// One coordinate of a vector made as long as is wanted.
proof fn lemma_stretch<S: Scalar>(delta: S, distance: S, wanted: S)
    requires
        exact::<S>(),
        distance != zero::<S>(),
    ensures
        delta.plus(delta.over(distance).times(wanted.minus(distance))) == delta.over(
            distance,
        ).times(wanted),
{
    let unit = delta.over(distance);
    lemma_quotient(delta, distance);
    lemma_distribute_difference(wanted, distance, unit);
    lemma_undo(unit.times(wanted), delta);
}

/// One coordinate of a push out of the cylinder, seen from the cylinder's line.
proof fn lemma_push_from<S: Scalar>(point: S, origin: S, step: S)
    requires
        exact::<S>(),
    ensures
        point.plus(step).minus(origin) == point.minus(origin).plus(step),
{
    lemma_take_nothing(step);
    lemma_take_nothing(origin);
    lemma_difference_of_sums(point, step, origin, zero());
}

/// A body that is pushed out of the cylinder at a point ends up with that point at the
/// contact distance from the cylinder's line, on the side on which it was.
pub proof fn lemma_penetrating_push_resolves<S: Scalar>(
    body: AffineBody<S>,
    previous: ControlPoints<S>,
    weights: Weights<S>,
    contact_distance: S,
    cylinder_origin: Vec3<S>,
)
    requires
        exact::<S>(),
        inverse_weight(body, weights) != zero::<S>(),
        ({
            let radial = reject_from_x_axis(point_of(body, weights).minus(cylinder_origin));
            &&& contact_epsilon::<S>().below(radial.squared())
            &&& radial.squared().root() != zero::<S>()
            &&& penetrating_push(
                body,
                previous,
                weights,
                radial,
                radial.squared(),
                contact_distance,
                cylinder_origin,
            ).1
        }),
    ensures
        ({
            let radial = reject_from_x_axis(point_of(body, weights).minus(cylinder_origin));
            let after = penetrating_push(
                body,
                previous,
                weights,
                radial,
                radial.squared(),
                contact_distance,
                cylinder_origin,
            ).0;
            reject_from_x_axis(point_of(after, weights).minus(cylinder_origin)) == radial.over(
                radial.squared().root(),
            ).scaled(contact_distance)
        }),
{
    let point = point_of(body, weights);
    let radial = reject_from_x_axis(point.minus(cylinder_origin));
    let distance = radial.squared().root();
    let normal = radial.over(distance);
    let penetration = contact_distance.minus(distance);
    lemma_static_push_resolves(body, weights, normal, penetration);
    lemma_push_from(point.y, cylinder_origin.y, normal.y.times(penetration));
    lemma_push_from(point.z, cylinder_origin.z, normal.z.times(penetration));
    lemma_stretch(radial.y, distance, contact_distance);
    lemma_stretch(radial.z, distance, contact_distance);
    lemma_zero(distance);
    lemma_zero(contact_distance);
}

/// One weighted coordinate between two weights.
proof fn lemma_between_term<S: Scalar>(point: S, first: S, second: S, t: S)
    requires
        exact::<S>(),
    ensures
        point.times(first.plus(second.minus(first).times(t))) == point.times(first).plus(
            point.times(second).minus(point.times(first)).times(t),
        ),
{
    lemma_distribute_left(first, second.minus(first).times(t), point);
    lemma_product_associate(point, second.minus(first), t);
    lemma_distribute_difference(second, first, point);
}

/// One coordinate of a point between two points of a body.
proof fn lemma_between_coordinate<S: Scalar>(
    p: (S, S, S, S),
    first: (S, S, S, S),
    second: (S, S, S, S),
    t: S,
)
    requires
        exact::<S>(),
    ensures
        weighted(
            p,
            (
                first.0.plus(second.0.minus(first.0).times(t)),
                first.1.plus(second.1.minus(first.1).times(t)),
                first.2.plus(second.2.minus(first.2).times(t)),
                first.3.plus(second.3.minus(first.3).times(t)),
            ),
        ) == weighted(p, first).plus(weighted(p, second).minus(weighted(p, first)).times(t)),
{
    let (a, b) = (p.0.times(first.0), p.0.times(second.0));
    let (c, d) = (p.1.times(first.1), p.1.times(second.1));
    let (e, f) = (p.2.times(first.2), p.2.times(second.2));
    let (g, h) = (p.3.times(first.3), p.3.times(second.3));
    lemma_between_term(p.0, first.0, second.0, t);
    lemma_between_term(p.1, first.1, second.1, t);
    lemma_between_term(p.2, first.2, second.2, t);
    lemma_between_term(p.3, first.3, second.3, t);
    lemma_take_nothing(a);
    lemma_take_nothing(b);
    lemma_take_nothing(a.plus(b.minus(a).times(t)));
    lemma_between_sum(a, b, c, d, t);
    lemma_between_sum(a.plus(c), b.plus(d), e, f, t);
    lemma_between_sum(a.plus(c).plus(e), b.plus(d).plus(f), g, h, t);
}

/// What lies between two sums is the sum of what lies between their terms.
pub proof fn lemma_between_sum<S: Scalar>(a: S, b: S, c: S, d: S, t: S)
    requires
        exact::<S>(),
    ensures
        a.plus(b.minus(a).times(t)).plus(c.plus(d.minus(c).times(t))) == a.plus(c).plus(
            b.plus(d).minus(a.plus(c)).times(t),
        ),
{
    lemma_exchange(a, b.minus(a).times(t), c, d.minus(c).times(t));
    lemma_distribute(b.minus(a), d.minus(c), t);
    lemma_difference_of_sums(b, d, a, c);
}

/// The point a part `t` of the way between two points of a body lies on the line between
/// them.
pub proof fn lemma_interpolated_point<S: Scalar>(
    body: AffineBody<S>,
    first: Weights<S>,
    second: Weights<S>,
    t: S,
)
    requires
        exact::<S>(),
    ensures
        point_of(body, interpolate_weights(first, second, t)) == point_of(body, first).plus(
            point_of(body, second).minus(point_of(body, first)).scaled(t),
        ),
{
    let points = body.positions;
    let v = (first.w0, first.w1, first.w2, first.w3);
    let w = (second.w0, second.w1, second.w2, second.w3);
    lemma_between_coordinate((points.p0.x, points.p1.x, points.p2.x, points.p3.x), v, w, t);
    lemma_between_coordinate((points.p0.y, points.p1.y, points.p2.y, points.p3.y), v, w, t);
    lemma_between_coordinate((points.p0.z, points.p1.z, points.p2.z, points.p3.z), v, w, t);
}

/// The point of a rod that touches the cylinder.
pub open spec fn rod_contact_weights<S: Scalar>(
    body: AffineBody<S>,
    cylinder: CylinderCollider<S>,
) -> Weights<S> {
    let start = point_of(body, collider_start());
    let start_radial = reject_from_x_axis(start.minus(cylinder.origin));
    let direction_radial = reject_from_x_axis(point_of(body, collider_end()).minus(start));
    let denominator = direction_radial.squared();
    let t = if contact_epsilon::<S>().below(denominator) {
        clamp_to_unit(start_radial.inner(direction_radial).negated().over(denominator))
    } else {
        half()
    };
    interpolate_weights(collider_start(), collider_end(), t)
}

/// A hub or rod that is pushed out of the cylinder ends up with the point that touched it at
/// the contact distance from the cylinder's line, on the side on which it was.
pub proof fn lemma_cylinder_contact_resolves<S: Scalar>(
    body: AffineBody<S>,
    previous: ControlPoints<S>,
    cylinder: CylinderCollider<S>,
)
    requires
        exact::<S>(),
        cylinder_contact(body, previous, cylinder).1,
        ({
            let weights = match body.kind {
                BodyKind::Rod => rod_contact_weights(body, cylinder),
                _ => hub_center(),
            };
            let radial = reject_from_x_axis(point_of(body, weights).minus(cylinder.origin));
            &&& inverse_weight(body, weights) != zero::<S>()
            &&& contact_epsilon::<S>().below(radial.squared())
            &&& radial.squared().root() != zero::<S>()
        }),
    ensures
        ({
            let (weights, proxy_radius) = match body.kind {
                BodyKind::Rod => (rod_contact_weights(body, cylinder), rod_radius::<S>()),
                _ => (hub_center(), hub_radius()),
            };
            let radial = reject_from_x_axis(point_of(body, weights).minus(cylinder.origin));
            let after = cylinder_contact(body, previous, cylinder).0;
            reject_from_x_axis(point_of(after, weights).minus(cylinder.origin)) == radial.over(
                radial.squared().root(),
            ).scaled(cylinder.radius.plus(proxy_radius))
        }),
{
    match body.kind {
        BodyKind::Rod => {
            let start = point_of(body, collider_start());
            let end = point_of(body, collider_end());
            let start_radial = reject_from_x_axis(start.minus(cylinder.origin));
            let direction_radial = reject_from_x_axis(end.minus(start));
            let denominator = direction_radial.squared();
            let t = if contact_epsilon::<S>().below(denominator) {
                clamp_to_unit(start_radial.inner(direction_radial).negated().over(denominator))
            } else {
                half()
            };
            let weights = rod_contact_weights(body, cylinder);
            let radial = start_radial.plus(direction_radial.scaled(t));
            lemma_interpolated_point(body, collider_start(), collider_end(), t);
            lemma_push_from(start.y, cylinder.origin.y, end.y.minus(start.y).times(t));
            lemma_push_from(start.z, cylinder.origin.z, end.z.minus(start.z).times(t));
            lemma_zero(t);
            lemma_take_nothing(zero::<S>());
            assert(radial == reject_from_x_axis(point_of(body, weights).minus(cylinder.origin)));
            lemma_penetrating_push_resolves(
                body,
                previous,
                weights,
                cylinder.radius.plus(rod_radius()),
                cylinder.origin,
            );
        },
        _ => {
            lemma_penetrating_push_resolves(
                body,
                previous,
                hub_center(),
                cylinder.radius.plus(hub_radius()),
                cylinder.origin,
            );
        },
    }
}

/// One coordinate of the far end of the part of a rod that collides.
pub proof fn lemma_trimmed_end<S: Scalar>(start: S, end: S, trim: S)
    requires
        exact::<S>(),
    ensures
        start.plus(end.minus(start).times(one::<S>().minus(trim))) == end.minus(
            end.minus(start).times(trim),
        ),
{
    let length = end.minus(start);
    let cut = length.times(trim);
    lemma_distribute_difference(one(), trim, length);
    lemma_one(length);
    lemma_undo(end, start);
    lemma_take_nothing(start);
    lemma_take_nothing(zero::<S>());
    lemma_difference_of_sums(start, length, zero(), cut);
    lemma_take_nothing(cut);
}

/// In exact arithmetic the segment of a net body that collides lies between the points that
/// the contacts push.
pub proof fn lemma_proxy_points<S: Scalar>(body: AffineBody<S>)
    requires
        exact::<S>(),
    ensures
        body.kind is Rod ==> detailed_proxy(body) == (
            point_of(body, collider_start()),
            point_of(body, collider_end()),
        ),
        !(body.kind is Rod) ==> detailed_proxy(body) == (
            point_of(body, hub_center()),
            point_of(body, hub_center()),
        ),
{
    lemma_joint_point_of(body);
    let trim = rod_collider_trim::<S>();
    let (start, end) = rod_joint_endpoints(body.positions);
    lemma_interpolated_point(body, rod_start(), rod_end(), trim);
    lemma_interpolated_point(body, rod_start(), rod_end(), one::<S>().minus(trim));
    lemma_trimmed_end(start.x, end.x, trim);
    lemma_trimmed_end(start.y, end.y, trim);
    lemma_trimmed_end(start.z, end.z, trim);
}

} // verus!
